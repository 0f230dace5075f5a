use hvnv::error::Error;
use hvnv::position::SwitchgearPosition;

#[test]
fn switchgear_position() {
    let mut pos = SwitchgearPosition::new();

    assert!(pos.is_open());
    assert!(!pos.is_closed());
    pos.close().unwrap();
    assert!(pos.close().is_err());
    assert!(!pos.is_open());
    assert!(pos.is_closed());
    pos.open().unwrap();
    assert!(pos.open().is_err());
    assert!(pos.is_open());
    assert!(!pos.is_closed());
}

#[test]
fn switchgear_position_cycle_errors() {
    let mut pos = SwitchgearPosition::new();

    assert_eq!(pos.open(), Err(Error::AlreadyOpen));
    assert!(pos.is_open());
    assert_eq!(pos.close(), Ok(()));
    assert!(pos.is_closed());
    assert_eq!(pos.close(), Err(Error::AlreadyClosed));
    assert!(pos.is_closed());
    assert_eq!(pos.open(), Ok(()));
    assert!(pos.is_open());
    assert_eq!(pos.open(), Err(Error::AlreadyOpen));
}
