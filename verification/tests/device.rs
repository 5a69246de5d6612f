use ehatrom::device::{clean_string, decode_device_image, has_hat_signature, shown_len, DeviceInfo,
    DisplayDevice};
use ehatrom::transport::{offset_frame, write_frames};
use ehatrom::{Eeprom, EepromHeader, EhatromError, GpioMapAtom, VendorInfoAtom};

fn sample() -> Eeprom {
    let mut eeprom = Eeprom {
        header: EepromHeader::new(),
        vendor_info: VendorInfoAtom::new(1, 2, 3, "Acme", "Widget", [0; 16]),
        gpio_map_bank0: GpioMapAtom { flags: 0, pins: [0; 28] },
        dt_blob: None,
        gpio_map_bank1: None,
        custom_atoms: Vec::new(),
    };
    eeprom.update_header();
    eeprom
}

#[test]
fn clean_string_stops_at_the_first_zero() {
    assert_eq!(clean_string(b"Acme\0\0\0"), "Acme");
    assert_eq!(clean_string(b"Ac\0me\0"), "Ac");
    assert_eq!(clean_string(b"\0Acme"), "");
    assert_eq!(clean_string(b"Acme"), "Acme");
    assert_eq!(clean_string(b""), "");
}

#[test]
fn clean_string_decodes_utf8_or_gives_nothing() {
    assert_eq!(clean_string(&[0xC3, 0xA9, b'!', 0, 0]), "\u{e9}!");
    assert_eq!(clean_string(&[0xE2, 0x82, 0xAC]), "\u{20ac}");
    assert_eq!(clean_string(&[b'a', 0xFF, b'b', 0]), "");
    assert_eq!(clean_string(&[0xC3, 0, 0xA9]), "");
    assert_eq!(clean_string(&[b'a', 0, 0xFF]), "a");
}

#[test]
fn shown_len_strips_trailing_zeros_only() {
    assert_eq!(shown_len(b"Acme\0\0\0"), 4);
    assert_eq!(shown_len(b"Ac\0me\0"), 5);
    assert_eq!(shown_len(b"\0\0"), 0);
    assert_eq!(shown_len(b""), 0);
    assert_eq!(shown_len(b"Acme"), 4);
}

#[test]
fn device_info_validity() {
    assert!(DeviceInfo::new("Acme".to_string(), "Widget".to_string()).is_valid());
    assert!(!DeviceInfo::new(String::new(), "Widget".to_string()).is_valid());
    assert!(!DeviceInfo::new("Acme".to_string(), String::new()).is_valid());
    let info = DeviceInfo::from_eeprom(&sample());
    assert_eq!(info.vendor, "Acme");
    assert_eq!(info.product, "Widget");
    assert!(info.is_valid());
    let display = DisplayDevice::new(1, 0x3C);
    assert_eq!(display.bus, 1);
    assert_eq!(display.address, 0x3C);
}

#[test]
fn hat_signature_test() {
    assert!(has_hat_signature(b"R-Pi"));
    assert!(has_hat_signature(b"R-Pi\x01\x00"));
    assert!(!has_hat_signature(b"R-P"));
    assert!(!has_hat_signature(b"r-Pi"));
    assert!(!has_hat_signature(&[0xFF; 32]));
}

#[test]
fn device_image_errors_are_invalid_data() {
    let bytes = sample().serialize();
    let eeprom = decode_device_image(&bytes).unwrap();
    assert_eq!(eeprom.vendor_info.product_id, 2);
    assert_eq!(decode_device_image(&bytes[..50]).err(), Some(EhatromError::InvalidData));
    assert_eq!(decode_device_image(&[0xFF; 64]).err(), Some(EhatromError::InvalidData));
    assert_eq!(decode_device_image(&[]).err(), Some(EhatromError::InvalidData));
}

#[test]
fn write_frames_cut_the_image_into_pages() {
    let data: Vec<u8> = (0..40u8).collect();
    let frames = write_frames(&data);
    assert_eq!(frames.len(), 3);
    assert_eq!(frames[0][..2], [0, 0]);
    assert_eq!(frames[0][2..], data[..16]);
    assert_eq!(frames[1][..2], [0, 16]);
    assert_eq!(frames[1][2..], data[16..32]);
    assert_eq!(frames[2][..2], [0, 32]);
    assert_eq!(frames[2][2..], data[32..]);
    assert!(write_frames(&[]).is_empty());
    assert_eq!(write_frames(&[7; 16]), vec![{
        let mut f = vec![0, 0];
        f.extend_from_slice(&[7; 16]);
        f
    }]);
    let big = vec![0u8; 0x1_0000];
    let frames = write_frames(&big);
    assert_eq!(frames.len(), 4096);
    assert_eq!(frames[4095][..2], [0xFF, 0xF0]);
    assert_eq!(frames[17][..2], [0x01, 0x10]);
}

#[test]
fn offset_frame_is_big_endian() {
    assert_eq!(offset_frame(0), [0, 0]);
    assert_eq!(offset_frame(0x1234), [0x12, 0x34]);
    assert_eq!(offset_frame(0xFFFF), [0xFF, 0xFF]);
}
