use ehatrom::utils::crc32::{generate_crc32_table, Hasher};
use std::time::Instant;

fn crc_of(data: &[u8]) -> u32 {
    let mut hasher = Hasher::new();
    hasher.update(data);
    hasher.finalize()
}

#[test]
fn test_empty_data() {
    let mut hasher = Hasher::new();
    hasher.update(&[]);
    assert_eq!(hasher.finalize(), 0);
}

#[test]
fn test_known_values() {
    let mut hasher = Hasher::new();
    hasher.update(b"123456789");
    assert_eq!(hasher.finalize(), 0xCBF43926);

    let mut hasher = Hasher::new();
    hasher.update(b"hello world");
    assert_eq!(hasher.finalize(), 0x0D4A1185);
}

#[test]
fn test_incremental_update() {
    let mut hasher1 = Hasher::new();
    hasher1.update(b"hello");
    hasher1.update(b" ");
    hasher1.update(b"world");

    let mut hasher2 = Hasher::new();
    hasher2.update(b"hello world");

    assert_eq!(hasher1.finalize(), hasher2.finalize());
}

#[test]
fn test_raspberry_pi_eeprom_data() {
    let mut hasher = Hasher::new();
    hasher.update(b"R-Pi\x01\x00\x00\x00\x10\x00\x00\x00");
    let result = hasher.finalize();
    assert_ne!(result, 0);
}

#[test]
fn test_single_byte() {
    let mut hasher = Hasher::new();
    hasher.update(&[0xFF]);
    let result = hasher.finalize();
    assert_eq!(result, 0xFF000000);
}

#[test]
fn test_consistency() {
    let test_data = b"Raspberry Pi HAT EEPROM test data";

    let mut hasher1 = Hasher::new();
    hasher1.update(test_data);
    let result1 = hasher1.finalize();

    let mut hasher2 = Hasher::new();
    hasher2.update(test_data);
    let result2 = hasher2.finalize();

    assert_eq!(result1, result2);
}

#[test]
fn crc32_performance_test_crc32_performance() {
    let data = b"This is a test string for performance measurement of our custom CRC32 implementation. Let's make it a bit longer to get more meaningful results.";
    let large_data = data.repeat(1000);

    println!("Testing CRC32 performance:");
    println!("Data size: {} bytes", large_data.len());

    for _ in 0..10 {
        let mut hasher = Hasher::new();
        hasher.update(&large_data);
        let _ = hasher.finalize();
    }

    let start = Instant::now();
    let iterations = 10;

    for _ in 0..iterations {
        let mut hasher = Hasher::new();
        hasher.update(&large_data);
        let _ = hasher.finalize();
    }

    let duration = start.elapsed();
    let throughput =
        (large_data.len() as f64 * iterations as f64) / duration.as_secs_f64() / (1024.0 * 1024.0);

    println!("Time: {duration:?} for {iterations} iterations");
    println!("Throughput: {throughput:.2} MB/s");

    assert!(
        throughput > 1.0,
        "CRC32 performance too slow: {throughput:.2} MB/s"
    );
}

#[test]
fn test_crc32_correctness_extended() {
    let mut hasher = Hasher::new();
    hasher.update(b"123456789");
    let result = hasher.finalize();

    assert_eq!(
        result, 0xCBF43926,
        "CRC32('123456789') = 0x{result:08X} (expected: 0xCBF43926)"
    );

    let mut hasher = Hasher::new();
    hasher.update(&[]);
    assert_eq!(hasher.finalize(), 0);

    let mut hasher = Hasher::new();
    hasher.update(&[0xFF]);
    let result = hasher.finalize();
    println!("CRC32([0xFF]) = 0x{result:08X}");

    let mut hasher1 = Hasher::new();
    hasher1.update(b"hello");
    hasher1.update(b" ");
    hasher1.update(b"world");

    let mut hasher2 = Hasher::new();
    hasher2.update(b"hello world");

    assert_eq!(hasher1.finalize(), hasher2.finalize());
}

#[test]
fn test_crc32_correctness() {
    let mut hasher = Hasher::new();
    hasher.update(b"123456789");
    let result = hasher.finalize();

    assert_eq!(
        result, 0xCBF43926,
        "CRC32('123456789') = 0x{result:08X} (expected: 0xCBF43926)"
    );
}

#[test]
fn table_has_the_standard_entries() {
    let table = generate_crc32_table();
    assert_eq!(table.len(), 256);
    assert_eq!(table[0], 0x0000_0000);
    assert_eq!(table[1], 0x7707_3096);
    assert_eq!(table[2], 0xEE0E_612C);
    assert_eq!(table[128], 0xEDB8_8320);
    assert_eq!(table[255], 0x2D02_EF8D);
}

#[test]
fn default_hasher_starts_like_a_new_one() {
    let mut hasher = Hasher::default();
    hasher.update(b"123456789");
    assert_eq!(hasher.finalize(), 0xCBF43926);
}

#[test]
fn every_split_of_the_input_gives_the_same_checksum() {
    let data = b"The quick brown fox jumps over the lazy dog";
    assert_eq!(crc_of(data), 0x414F_A339);
    for cut in 0..=data.len() {
        let mut hasher = Hasher::new();
        hasher.update(&data[..cut]);
        hasher.update(&data[cut..]);
        assert_eq!(hasher.finalize(), 0x414F_A339);
    }
}

#[test]
fn changing_one_byte_changes_the_checksum() {
    let data = b"Raspberry Pi HAT".to_vec();
    let good = crc_of(&data);
    for i in 0..data.len() {
        for bit in 0..8 {
            let mut changed = data.clone();
            changed[i] ^= 1 << bit;
            assert_ne!(crc_of(&changed), good);
        }
    }
}
