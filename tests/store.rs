use pctrl::status::{status_text, Status, StatusError};
use pctrl::catalog::DeviceCatalog;
use pctrl::device::Device;
use pctrl::store::{read_device_index, write_device_index};

#[test]
fn index_text_round_trip() {
    for n in [0u32, 7, 10, 42, 65535, u32::MAX] {
        let text = write_device_index(n);
        assert_eq!(text, n.to_string().into_bytes());
        assert_eq!(read_device_index(&text), Some(n));
    }
}

#[test]
fn corrupt_index_text_is_unset() {
    assert_eq!(read_device_index(b""), None);
    assert_eq!(read_device_index(b"+"), None);
    assert_eq!(read_device_index(b"12a"), None);
    assert_eq!(read_device_index(b"-3"), None);
    assert_eq!(read_device_index(b"5\n"), None);
    assert_eq!(read_device_index(b"4294967296"), None);
    assert_eq!(read_device_index(b"99999999999999999999"), None);
    assert_eq!(read_device_index(b"+17"), Some(17));
    assert_eq!(read_device_index(b"0042"), Some(42));
    assert_eq!(read_device_index(b"4294967295"), Some(u32::MAX));
}

#[test]
fn status_texts() {
    let d = Device {
        index: 3,
        name: Some("alsa_output.speakers".to_string()),
        description: None,
        mute: true,
    };
    assert_eq!(status_text(&d, Status::Muted), Some("true".to_string()));
    assert_eq!(status_text(&d, Status::Name), Some("alsa_output.speakers".to_string()));
    assert_eq!(status_text(&d, Status::Desc), Some(String::new()));
    assert_eq!(status_text(&d, Status::Volume), None);
    let c = DeviceCatalog::new(vec![d]).unwrap();
    assert_eq!(c.status_device(Some(3)), Ok(0));
    assert_eq!(c.status_device(Some(4)), Err(StatusError::UnknownDevice(4)));
    assert_eq!(c.status_device(None), Err(StatusError::Unset));
}
