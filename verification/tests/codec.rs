use ehatrom::{AtomHeader, AtomType, Eeprom, EepromHeader, EhatromError, GpioMapAtom, VendorInfoAtom};

fn vendor() -> VendorInfoAtom {
    VendorInfoAtom::new(0x1234, 0x5678, 1, "testvendor", "testproduct", [1; 16])
}

fn gpio() -> GpioMapAtom {
    GpioMapAtom { flags: 0xAA55, pins: [1; 28] }
}

fn plain() -> Eeprom {
    let mut eeprom = Eeprom {
        header: EepromHeader::new(),
        vendor_info: vendor(),
        gpio_map_bank0: gpio(),
        dt_blob: None,
        gpio_map_bank1: None,
        custom_atoms: Vec::new(),
    };
    eeprom.update_header();
    eeprom
}

fn full() -> Eeprom {
    let mut eeprom = plain();
    eeprom.add_dt_blob(vec![1, 2, 3]);
    eeprom.add_gpio_map_bank1(GpioMapAtom { flags: 0x0102, pins: [7; 28] });
    eeprom.add_custom_atom(0x80, b"custom".to_vec());
    eeprom.add_custom_atom(0x80, b"again".to_vec());
    eeprom.add_custom_atom(0x05, vec![0xFF]);
    eeprom.update_header();
    eeprom
}

fn plain_bytes() -> Vec<u8> {
    let mut bytes = vec![0x52, 0x2D, 0x50, 0x69, 1, 0, 2, 0, 112, 0, 0, 0];
    bytes.extend_from_slice(&[1, 1, 54, 0, 0, 0, 0, 0]);
    bytes.extend_from_slice(&[0x34, 0x12, 0x78, 0x56, 1, 0]);
    bytes.extend_from_slice(b"testvendor\0\0\0\0\0\0");
    bytes.extend_from_slice(b"testproduct\0\0\0\0\0");
    bytes.extend_from_slice(&[1; 16]);
    bytes.extend_from_slice(&[2, 1, 30, 0, 0, 0, 0, 0]);
    bytes.extend_from_slice(&[0x55, 0xAA]);
    bytes.extend_from_slice(&[1; 28]);
    bytes
}

fn atom(atom_type: u8, payload: &[u8]) -> Vec<u8> {
    let mut bytes = vec![atom_type, 1, payload.len() as u8, (payload.len() >> 8) as u8, 0, 0, 0, 0];
    bytes.extend_from_slice(payload);
    bytes
}

fn image(numatoms: u16, atoms: &[Vec<u8>]) -> Vec<u8> {
    let mut bytes = vec![0x52, 0x2D, 0x50, 0x69, 1, 0, numatoms as u8, (numatoms >> 8) as u8, 0, 0, 0, 0];
    for a in atoms {
        bytes.extend_from_slice(a);
    }
    bytes
}

fn same(a: &Eeprom, b: &Eeprom) -> bool {
    a.header.signature == b.header.signature
        && a.header.version == b.header.version
        && a.header.reserved == b.header.reserved
        && a.header.numatoms == b.header.numatoms
        && a.header.eeplen == b.header.eeplen
        && a.vendor_info.vendor_id == b.vendor_info.vendor_id
        && a.vendor_info.product_id == b.vendor_info.product_id
        && a.vendor_info.product_ver == b.vendor_info.product_ver
        && a.vendor_info.vendor == b.vendor_info.vendor
        && a.vendor_info.product == b.vendor_info.product
        && a.vendor_info.uuid == b.vendor_info.uuid
        && a.gpio_map_bank0.flags == b.gpio_map_bank0.flags
        && a.gpio_map_bank0.pins == b.gpio_map_bank0.pins
        && a.dt_blob == b.dt_blob
        && a.gpio_map_bank1.map(|g| (g.flags, g.pins)) == b.gpio_map_bank1.map(|g| (g.flags, g.pins))
        && a.custom_atoms == b.custom_atoms
}

#[test]
fn plain_image_is_written_byte_for_byte() {
    assert_eq!(plain().serialize(), plain_bytes());
}

#[test]
fn reserved_byte_is_written_as_zero() {
    let mut eeprom = plain();
    eeprom.header.reserved = 0x7F;
    assert_eq!(eeprom.serialize(), plain_bytes());
}

#[test]
fn full_image_is_written_in_the_fixed_order() {
    let bytes = full().serialize();
    let mut expected = plain_bytes();
    expected[6] = 7;
    expected[8] = 197;
    expected.extend_from_slice(&atom(3, &[1, 2, 3]));
    let mut bank1 = vec![0x02, 0x01];
    bank1.extend_from_slice(&[7; 28]);
    expected.extend_from_slice(&atom(4, &bank1));
    expected.extend_from_slice(&atom(0x80, b"custom"));
    expected.extend_from_slice(&atom(0x80, b"again"));
    expected.extend_from_slice(&atom(0x05, &[0xFF]));
    assert_eq!(expected.len(), 197);
    assert_eq!(bytes, expected);
}

#[test]
fn serialize_to_vec_appends() {
    let mut bytes = vec![0xEE, 0xEF];
    plain().serialize_to_vec(&mut bytes);
    assert_eq!(&bytes[..2], &[0xEE, 0xEF]);
    assert_eq!(&bytes[2..], &plain_bytes()[..]);
}

#[test]
fn crc_trailer_is_little_endian() {
    let bytes = plain().serialize_with_crc();
    let image = plain_bytes();
    assert_eq!(bytes.len(), image.len() + 4);
    assert_eq!(&bytes[..image.len()], &image[..]);
    let mut hasher = ehatrom::utils::crc32::Hasher::new();
    hasher.update(&image);
    let crc = hasher.finalize();
    assert_eq!(&bytes[image.len()..], &crc.to_le_bytes());
    assert!(Eeprom::verify_crc(&bytes));
}

#[test]
fn verify_crc_on_known_vectors() {
    assert!(Eeprom::verify_crc(&[0, 0, 0, 0]));
    assert!(Eeprom::verify_crc(b"123456789\x26\x39\xF4\xCB"));
    assert!(!Eeprom::verify_crc(b"123456789\xCB\xF4\x39\x26"));
    assert!(Eeprom::verify_crc(&[0xFF, 0x00, 0x00, 0x00, 0xFF]));
    assert!(!Eeprom::verify_crc(&[]));
    assert!(!Eeprom::verify_crc(&[0, 0, 0]));
}

#[test]
fn every_single_bit_flip_fails_the_checksum() {
    let good = full().serialize_with_crc();
    assert!(Eeprom::verify_crc(&good));
    for i in 0..good.len() {
        for bit in 0..8 {
            let mut bad = good.clone();
            bad[i] ^= 1 << bit;
            assert!(!Eeprom::verify_crc(&bad), "byte {i} bit {bit}");
        }
    }
    let mut bit_ten = good.clone();
    bit_ten[1] ^= 1 << 2;
    assert!(!Eeprom::verify_crc(&bit_ten));
}

#[test]
fn an_image_written_without_recomputing_does_not_read_back() {
    let mut eeprom = Eeprom {
        header: EepromHeader::new(),
        vendor_info: vendor(),
        gpio_map_bank0: gpio(),
        dt_blob: None,
        gpio_map_bank1: None,
        custom_atoms: Vec::new(),
    };
    eeprom.add_dt_blob(vec![1, 2, 3]);
    assert_eq!(Eeprom::from_bytes(&eeprom.serialize()).err(), Some(EhatromError::MissingVendorInfo));
    eeprom.update_header();
    assert!(Eeprom::from_bytes(&eeprom.serialize()).is_ok());
}

#[test]
fn round_trip_is_field_for_field() {
    for eeprom in [plain(), full()] {
        let bytes = eeprom.serialize_with_crc();
        assert!(Eeprom::verify_crc(&bytes));
        let parsed = Eeprom::from_bytes(&bytes[..bytes.len() - 4]).unwrap();
        assert!(same(&parsed, &eeprom));
        let (with_trailer, skipped) = Eeprom::from_bytes_counted(&bytes).unwrap();
        assert!(same(&with_trailer, &eeprom));
        assert_eq!(skipped, 0);
    }
}

#[test]
fn scenario_with_blob_and_custom_atom() {
    let mut eeprom = Eeprom {
        header: EepromHeader::new(),
        vendor_info: vendor(),
        gpio_map_bank0: gpio(),
        dt_blob: None,
        gpio_map_bank1: None,
        custom_atoms: Vec::new(),
    };
    eeprom.add_dt_blob(vec![1, 2, 3]);
    eeprom.add_custom_atom(0x80, b"custom".to_vec());
    eeprom.update_header();
    let bytes = eeprom.serialize_with_crc();
    let parsed = Eeprom::from_bytes(&bytes[..bytes.len() - 4]).unwrap();
    assert_eq!(parsed.vendor_info.vendor_id, 0x1234);
    assert_eq!(parsed.vendor_info.product_id, 0x5678);
    assert_eq!(parsed.gpio_map_bank0.flags, 0xAA55);
    assert_eq!(parsed.dt_blob, Some(vec![1, 2, 3]));
    assert_eq!(parsed.custom_atoms.len(), 1);
    assert_eq!(parsed.custom_atoms[0].0, 0x80);
    assert_eq!(parsed.custom_atoms[0].1, b"custom".to_vec());
    assert!(parsed.gpio_map_bank1.is_none());
}

#[test]
fn every_proper_prefix_is_too_short() {
    let bytes = full().serialize();
    for n in 0..bytes.len() {
        assert_eq!(Eeprom::from_bytes(&bytes[..n]).err(), Some(EhatromError::TooShort), "prefix {n}");
    }
    assert!(Eeprom::from_bytes(&bytes).is_ok());
}

#[test]
fn wrong_signature_is_refused() {
    let mut bytes = plain_bytes();
    bytes[3] = b'j';
    assert_eq!(Eeprom::from_bytes(&bytes).err(), Some(EhatromError::BadSignature));
    assert_eq!(Eeprom::from_bytes(&[0u8; 12]).err(), Some(EhatromError::BadSignature));
    assert_eq!(Eeprom::from_bytes(b"XXXX\x01\x00\x00\x00\x00\x00\x00\x00").err(), Some(EhatromError::BadSignature));
    assert_eq!(Eeprom::from_bytes(&[0u8; 11]).err(), Some(EhatromError::TooShort));
    assert_eq!(Eeprom::from_bytes(b"XXXX").err(), Some(EhatromError::TooShort));
}

#[test]
fn mandatory_atoms_are_enforced() {
    let v = atom(1, &plain_bytes()[20..74]);
    let g = atom(2, &plain_bytes()[82..112]);
    assert_eq!(Eeprom::from_bytes(&image(0, &[])).err(), Some(EhatromError::MissingVendorInfo));
    assert_eq!(Eeprom::from_bytes(&image(1, &[g.clone()])).err(), Some(EhatromError::MissingVendorInfo));
    assert_eq!(Eeprom::from_bytes(&image(1, &[v.clone()])).err(), Some(EhatromError::MissingGpioBank0));
    assert_eq!(
        Eeprom::from_bytes(&image(2, &[v.clone(), atom(4, &plain_bytes()[82..112])])).err(),
        Some(EhatromError::MissingGpioBank0)
    );
    assert!(Eeprom::from_bytes(&image(2, &[g.clone(), v.clone()])).is_ok());
    // The count in the header decides: a vendor info behind it is not read.
    assert_eq!(Eeprom::from_bytes(&image(1, &[g, v])).err(), Some(EhatromError::MissingVendorInfo));
}

#[test]
fn undersized_fixed_atoms_are_dropped_and_counted() {
    let v = atom(1, &plain_bytes()[20..74]);
    let g = atom(2, &plain_bytes()[82..112]);
    let short_v = atom(1, &[0; 53]);
    let short_g = atom(2, &[0; 29]);
    let short_b = atom(4, &[0; 10]);
    let bytes = image(5, &[v.clone(), short_v.clone(), g.clone(), short_g, short_b]);
    let (parsed, skipped) = Eeprom::from_bytes_counted(&bytes).unwrap();
    assert_eq!(skipped, 3);
    assert_eq!(parsed.vendor_info.vendor_id, 0x1234);
    assert_eq!(parsed.gpio_map_bank0.flags, 0xAA55);
    assert!(parsed.gpio_map_bank1.is_none());
    assert_eq!(parsed.header.numatoms, 5);
    assert_eq!(
        Eeprom::from_bytes(&image(2, &[short_v, g])).err(),
        Some(EhatromError::MissingVendorInfo)
    );
}

#[test]
fn oversized_fixed_atoms_are_read_from_their_first_bytes() {
    let mut long_v = plain_bytes()[20..74].to_vec();
    long_v.extend_from_slice(&[0xAB; 10]);
    let mut long_g = plain_bytes()[82..112].to_vec();
    long_g.extend_from_slice(&[0xCD; 2]);
    let bytes = image(2, &[atom(1, &long_v), atom(2, &long_g)]);
    let (parsed, skipped) = Eeprom::from_bytes_counted(&bytes).unwrap();
    assert_eq!(skipped, 0);
    assert_eq!(parsed.vendor_info.uuid, [1; 16]);
    assert_eq!(&parsed.vendor_info.product, b"testproduct\0\0\0\0\0");
    assert_eq!(parsed.gpio_map_bank0.pins, [1; 28]);
}

#[test]
fn empty_blobs_are_absent_and_later_atoms_win() {
    let v = atom(1, &plain_bytes()[20..74]);
    let g = atom(2, &plain_bytes()[82..112]);
    let mut other_g = vec![0x11, 0x22];
    other_g.extend_from_slice(&[4; 28]);
    let bytes = image(
        8,
        &[
            v,
            g,
            atom(3, &[5, 6]),
            atom(3, &[]),
            atom(0x90, &[]),
            atom(0x90, &[1]),
            atom(0x00, &[2, 3]),
            atom(2, &other_g),
        ],
    );
    let (parsed, skipped) = Eeprom::from_bytes_counted(&bytes).unwrap();
    assert_eq!(skipped, 0);
    assert_eq!(parsed.dt_blob, Some(vec![5, 6]));
    assert_eq!(parsed.custom_atoms, vec![(0x90, vec![1]), (0x00, vec![2, 3])]);
    assert_eq!(parsed.gpio_map_bank0.flags, 0x2211);
    assert_eq!(parsed.gpio_map_bank0.pins, [4; 28]);
}

#[test]
fn header_is_carried_through_as_read() {
    let mut bytes = plain_bytes();
    bytes[4] = 9;
    bytes[5] = 0x33;
    bytes[8..12].copy_from_slice(&[0x78, 0x56, 0x34, 0x12]);
    bytes.extend_from_slice(&[0xDE, 0xAD]);
    let parsed = Eeprom::from_bytes(&bytes).unwrap();
    assert_eq!(parsed.header.version, 9);
    assert_eq!(parsed.header.reserved, 0x33);
    assert_eq!(parsed.header.numatoms, 2);
    assert_eq!(parsed.header.eeplen, 0x1234_5678);
}

static STORED: [u8; 126] = {
    let mut b = [0u8; 126];
    b[0] = 0x52;
    b[1] = 0x2D;
    b[2] = 0x50;
    b[3] = 0x69;
    b[4] = 1;
    b[6] = 3;
    b[12] = 1;
    b[13] = 1;
    b[14] = 54;
    b[20] = 0x34;
    b[21] = 0x12;
    b[74] = 2;
    b[75] = 1;
    b[76] = 30;
    b[82] = 0x55;
    b[83] = 0xAA;
    b[112] = 0x80;
    b[113] = 1;
    b[114] = 6;
    b
};

#[test]
fn reading_static_bytes_keeps_custom_atoms() {
    let kept = Eeprom::from_bytes(&STORED).unwrap();
    assert_eq!(kept.custom_atoms, vec![(0x80, vec![0; 6])]);
    let parsed = Eeprom::from_bytes_no_alloc(&STORED).unwrap();
    assert_eq!(parsed.custom_atoms, vec![(0x80, vec![0; 6])]);
    assert!(same(&parsed, &kept));
    assert_eq!(Eeprom::from_bytes_no_alloc(&STORED[..125]).err(), Some(EhatromError::TooShort));
    assert_eq!(parsed.vendor_info.vendor_id, 0x1234);
    assert_eq!(parsed.gpio_map_bank0.flags, 0xAA55);
    assert_eq!(parsed.header.numatoms, 3);
}

#[test]
fn bounded_serialize_fills_the_front_of_the_buffer() {
    let eeprom = full();
    let image = eeprom.serialize();
    let mut buffer = vec![0xEE; 200];
    assert_eq!(eeprom.serialize_to_slice_universal(&mut buffer), Ok(197));
    assert_eq!(&buffer[..197], &image[..]);
    assert_eq!(&buffer[197..], &[0xEE; 3]);
    let mut exact = vec![0u8; 197];
    assert_eq!(eeprom.serialize_to_slice(&mut exact), Ok(197));
    assert_eq!(exact, image);
}

#[test]
fn bounded_serialize_refuses_a_short_buffer() {
    let eeprom = full();
    let mut buffer = vec![0xEE; 196];
    assert_eq!(eeprom.serialize_to_slice_universal(&mut buffer), Err(EhatromError::BufferTooSmall));
    assert_eq!(buffer, vec![0xEE; 196]);
    assert_eq!(eeprom.serialize_to_slice(&mut []), Err(EhatromError::BufferTooSmall));
}

#[test]
fn serialize_to_buffer_moves_the_offset() {
    let eeprom = plain();
    let mut buffer = vec![0xEE; 120];
    let mut offset = 5;
    assert_eq!(eeprom.serialize_to_buffer(&mut buffer, &mut offset), Ok(()));
    assert_eq!(offset, 117);
    assert_eq!(&buffer[..5], &[0xEE; 5]);
    assert_eq!(&buffer[5..117], &plain_bytes()[..]);
    assert_eq!(&buffer[117..], &[0xEE; 3]);
    let mut offset = 9;
    assert_eq!(eeprom.serialize_to_buffer(&mut buffer, &mut offset), Err(EhatromError::BufferTooSmall));
    assert_eq!(offset, 9);
    let mut offset = 500;
    assert_eq!(eeprom.serialize_to_buffer(&mut buffer, &mut offset), Err(EhatromError::BufferTooSmall));
    assert_eq!(offset, 500);
}

#[test]
fn bounded_serialize_with_crc() {
    let eeprom = plain();
    let expected = eeprom.serialize_with_crc();
    let mut buffer = vec![0xEE; 120];
    assert_eq!(eeprom.serialize_with_crc_to_slice(&mut buffer), Ok(116));
    assert_eq!(&buffer[..116], &expected[..]);
    assert_eq!(&buffer[116..], &[0xEE; 4]);
    assert!(Eeprom::verify_crc(&buffer[..116]));

    let mut tight = vec![0xEE; 114];
    assert_eq!(eeprom.serialize_with_crc_to_slice(&mut tight), Err(EhatromError::BufferTooSmall));
    assert_eq!(&tight[..112], &plain_bytes()[..]);
    assert_eq!(&tight[112..], &[0xEE; 2]);

    let mut short = vec![0xEE; 100];
    assert_eq!(eeprom.serialize_with_crc_to_slice(&mut short), Err(EhatromError::BufferTooSmall));
    assert_eq!(short, vec![0xEE; 100]);
}

#[test]
fn long_payload_length_is_reduced_to_sixteen_bits() {
    let header = AtomHeader::for_payload(0x80, 0x1_0005);
    assert_eq!(header.atom_type, 0x80);
    assert_eq!(header.count, 1);
    assert_eq!(header.dlen, 5);
    assert_eq!(header.reserved, 0);
    assert_eq!(AtomHeader::for_payload(3, 0xFFFF).dlen, 0xFFFF);
}

#[test]
fn atom_type_codes() {
    assert_eq!(AtomType::from(0x01), AtomType::VendorInfo);
    assert_eq!(AtomType::from(0x02), AtomType::GpioMapBank0);
    assert_eq!(AtomType::from(0x03), AtomType::DtBlob);
    assert_eq!(AtomType::from(0x04), AtomType::GpioMapBank1);
    assert_eq!(AtomType::from(0x00), AtomType::Unknown);
    assert_eq!(AtomType::from(0x05), AtomType::Unknown);
    assert_eq!(AtomType::from_code(0x80), AtomType::Unknown);
    assert_eq!(AtomType::from_code(0xFF), AtomType::Unknown);
    assert_eq!(AtomType::VendorInfo.code(), 0x01);
    assert_eq!(AtomType::GpioMapBank0.code(), 0x02);
    assert_eq!(AtomType::DtBlob.code(), 0x03);
    assert_eq!(AtomType::GpioMapBank1.code(), 0x04);
    assert_eq!(AtomType::from_code(AtomType::Unknown.code()), AtomType::Unknown);
}
