use ehatrom::discovery::{bus_order, i2c_bus_number, list_i2c_buses, order_i2c_devices};

#[test]
fn bus_names_carry_their_number() {
    assert_eq!(i2c_bus_number("i2c-0"), Some(0));
    assert_eq!(i2c_bus_number("i2c-1"), Some(1));
    assert_eq!(i2c_bus_number("i2c-20"), Some(20));
    assert_eq!(i2c_bus_number("i2c-007"), Some(7));
    assert_eq!(i2c_bus_number("i2c-+3"), Some(3));
    assert_eq!(i2c_bus_number("i2c-4294967295"), Some(4294967295));
    assert_eq!(i2c_bus_number("i2c-4294967296"), None);
    assert_eq!(i2c_bus_number("i2c-99999999999999999999999"), None);
    assert_eq!(i2c_bus_number("i2c-"), None);
    assert_eq!(i2c_bus_number("i2c-+"), None);
    assert_eq!(i2c_bus_number("i2c--1"), None);
    assert_eq!(i2c_bus_number("i2c-++1"), None);
    assert_eq!(i2c_bus_number("i2c-1a"), None);
    assert_eq!(i2c_bus_number("i2c- 1"), None);
    assert_eq!(i2c_bus_number("i2c-1 "), None);
    assert_eq!(i2c_bus_number("I2C-1"), None);
    assert_eq!(i2c_bus_number("i2c1"), None);
    assert_eq!(i2c_bus_number("spidev0.0"), None);
    assert_eq!(i2c_bus_number(""), None);
    assert_eq!(i2c_bus_number("i2c-\u{661}"), None);
}

#[test]
fn bus_numbers_agree_with_the_standard_parser() {
    let tails = [
        "", "+", "-", "0", "00", "+0", "-0", "9", "10", "+10", "1+", "+-1", "4294967295",
        "4294967296", "04294967295", "+4294967295", "42949672950", "18446744073709551616", "1.0",
        "0x10", "1_000", " 1", "1\n", "\u{ff11}", "12345678901", "3999999999", "4300000000",
    ];
    for tail in tails {
        let name = format!("i2c-{tail}");
        let expected = tail.parse::<u32>().ok();
        assert_eq!(i2c_bus_number(&name), expected, "{name:?}");
    }
    for n in (0..=u32::MAX).step_by(65_521) {
        assert_eq!(i2c_bus_number(&format!("i2c-{n}")), Some(n));
    }
}

#[test]
fn buses_are_ordered_by_number_then_by_place() {
    assert_eq!(bus_order(&[]), Vec::<usize>::new());
    assert_eq!(bus_order(&[None, None]), Vec::<usize>::new());
    assert_eq!(bus_order(&[Some(3), None, Some(1), Some(2)]), vec![2, 3, 0]);
    assert_eq!(bus_order(&[Some(1), Some(1), Some(0), Some(1)]), vec![2, 0, 1, 3]);
    assert_eq!(bus_order(&[Some(u32::MAX), Some(0)]), vec![1, 0]);
    assert_eq!(bus_order(&[Some(5)]), vec![0]);
}

#[test]
fn directory_entries_are_chosen_and_ordered() {
    let names: Vec<String> = ["tty0", "i2c-10", "i2c-2", "i2c-", "i2c-1", "null", "i2c-x", "i2c-01"]
        .iter()
        .map(|s| s.to_string())
        .collect();
    assert_eq!(order_i2c_devices(&names), vec![4, 7, 2, 1]);
    assert!(order_i2c_devices(&Vec::new()).is_empty());
}

#[test]
fn bus_entries_are_listed_in_dictionary_order() {
    let names: Vec<String> = ["tty0", "i2c-10", "i2c-2", "i2c-", "i2c-1", "i2c", "i2c-x", "I2c-3", "i2c-1"]
        .iter()
        .map(|s| s.to_string())
        .collect();
    assert_eq!(list_i2c_buses(&names), vec![3, 4, 8, 1, 2, 6]);
    assert!(list_i2c_buses(&Vec::new()).is_empty());
    assert!(list_i2c_buses(&vec!["null".to_string()]).is_empty());
}

#[test]
fn listing_agrees_with_the_standard_sort() {
    let names: Vec<String> = [
        "i2c-9", "i2c-10", "i2c-1", "i2c-100", "i2c-\u{e9}", "i2c-Z", "i2c-a", "i2c-", "i2c-0",
        "i2c-11", "i2c-01", "spidev", "i2c-2", "i2c--", "i2c-+", "i2c- ",
    ]
    .iter()
    .map(|s| s.to_string())
    .collect();
    let listed: Vec<String> = list_i2c_buses(&names).into_iter().map(|at| names[at].clone()).collect();
    let mut expected: Vec<String> = names.iter().filter(|n| n.starts_with("i2c-")).cloned().collect();
    expected.sort();
    assert_eq!(listed, expected);
    assert_eq!(listed.len(), 15);
}

#[test]
fn ordering_agrees_with_a_stable_sort_by_number() {
    let names: Vec<String> = [
        "i2c-9", "i2c-10", "i2c-1", "i2c-100", "i2c-x", "i2c-01", "i2c-", "i2c-0", "i2c-+1",
        "i2c-11", "tty1", "i2c-2", "i2c-4294967295", "i2c-4294967296", "i2c-1",
    ]
    .iter()
    .map(|s| s.to_string())
    .collect();
    let ordered: Vec<String> =
        order_i2c_devices(&names).into_iter().map(|at| names[at].clone()).collect();
    let mut expected: Vec<String> = names
        .iter()
        .filter(|n| n.starts_with("i2c-") && n.len() > 4 && n[4..].parse::<u32>().is_ok())
        .cloned()
        .collect();
    expected.sort_by_key(|n| n[4..].parse::<u32>().unwrap_or(0));
    assert_eq!(ordered, expected);
    assert_eq!(ordered.len(), 11);
    assert_eq!(ordered[0], "i2c-0");
    assert_eq!(&ordered[1..5], &["i2c-1", "i2c-01", "i2c-+1", "i2c-1"]);
}
