use agent_core::net::error::Error;
use agent_core::net::mac::MacAddr;

#[test]
fn mac_constructions() {
    let expected = MacAddr::from([0x12, 0x34, 0x56, 0x78, 0x9a, 0xbc]);
    assert_eq!("12:34:56:78:9a:bc", expected.to_string());

    assert_eq!("12:34:56:78:9a:bc".parse::<MacAddr>().unwrap(), expected);
    assert_eq!(MacAddr::try_from(0x123456789abc).unwrap(), expected);
    assert_eq!(
        MacAddr::try_from([0x12, 0x34, 0x56, 0x78, 0x9a, 0xbc]).unwrap(),
        expected
    );
    assert_eq!(
        MacAddr::try_from(&[0x12, 0x34, 0x56, 0x78, 0x9a, 0xbc][..]).unwrap(),
        expected
    );
}

#[test]
fn mac_to_u64() {
    assert_eq!(
        u64::from(MacAddr::from([0x12, 0x34, 0x56, 0x78, 0x9a, 0xbc])),
        0x123456789abc
    );
}

#[test]
fn mac_text_with_fewer_groups_leaves_zeroes() {
    let mac = "12:34".parse::<MacAddr>().unwrap();
    assert_eq!(mac.octets(), [0x12, 0x34, 0, 0, 0, 0]);
    assert_eq!("+a:B:0c:000d".parse::<MacAddr>().unwrap().octets(), [10, 11, 12, 13, 0, 0]);
}

#[test]
fn mac_text_that_is_refused_comes_back_in_the_error() {
    for text in ["", ":", "12:34:56:78:9a:bc:de", "1g", "100", "-1", "+", "12::34", "é"] {
        match text.parse::<MacAddr>() {
            Err(Error::ParseMacFailed(t)) => assert_eq!(t, text),
            other => panic!("{:?} for {:?}", other, text),
        }
    }
}

#[test]
fn mac_number_must_fit_48_bits() {
    assert_eq!(MacAddr::try_from(0x1_0000_0000_0000u64), Err(0x1_0000_0000_0000u64));
    assert_eq!(MacAddr::try_from(u64::MAX), Err(u64::MAX));
    assert_eq!(
        MacAddr::try_from(0xffff_ffff_ffffu64).unwrap().octets(),
        [0xff; 6]
    );
    assert_eq!(MacAddr::try_from(0u64).unwrap(), MacAddr::default());
    assert_eq!(MacAddr::zero().octets(), [0; 6]);
}

#[test]
fn mac_slice_must_be_six_long() {
    assert!(MacAddr::try_from(&[1u8, 2, 3, 4, 5][..]).is_err());
    assert!(MacAddr::try_from(&[1u8, 2, 3, 4, 5, 6, 7][..]).is_err());
    assert!(MacAddr::try_from(&[][..]).is_err());
    assert_eq!(
        MacAddr::try_from(&[6u8, 5, 4, 3, 2, 1][..]).unwrap().octets(),
        [6, 5, 4, 3, 2, 1]
    );
}

#[test]
fn mac_unicast_and_multicast() {
    assert!(MacAddr::is_unicast(MacAddr::from([0x12, 0x34, 0x56, 0x78, 0x9a, 0xbc])));
    assert!(!MacAddr::is_unicast(MacAddr::from([0xff; 6])));
    assert!(!MacAddr::is_unicast(MacAddr::from([0x01, 0, 0x5e, 0, 0, 1])));
    assert!(MacAddr::is_unicast(MacAddr::from([0xfe, 0xff, 0xff, 0xff, 0xff, 0xff])));
    assert!(MacAddr::is_multicast(&[0x01, 0, 0x5e, 0, 0, 1, 0]));
    assert!(!MacAddr::is_multicast(&[0x12, 0, 0x5e, 0, 0, 1, 0]));
}

#[test]
fn mac_text_round_trip() {
    let mac = MacAddr::from([0x00, 0x0f, 0xf0, 0xff, 0xa5, 0x5a]);
    assert_eq!(mac.to_string(), "00:0f:f0:ff:a5:5a");
    assert_eq!(mac.to_string().parse::<MacAddr>().unwrap(), mac);
}
