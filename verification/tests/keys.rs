use ticket_lock::error::LockError;
use ticket_lock::keys::{
    append_decimal, counter_key_of, decode_ticket, encode_ticket, placeholder_bytes, same_bytes,
    sentinel_key_of, Mutex,
};

#[test]
fn counter_key_appends_next() {
    let m = Mutex::new("R".to_string()).unwrap();
    assert_eq!(m.counter_key(), "R.next");
    assert_eq!(counter_key_of(&"orders/eu".to_string()), "orders/eu.next");
}

#[test]
fn sentinel_key_appends_the_ticket_in_decimal() {
    let m = Mutex::new("R".to_string()).unwrap();
    assert_eq!(m.sentinel_key(0), "R.blocked.0");
    assert_eq!(m.sentinel_key(1), "R.blocked.1");
    assert_eq!(m.sentinel_key(9), "R.blocked.9");
    assert_eq!(m.sentinel_key(10), "R.blocked.10");
    assert_eq!(m.sentinel_key(12345), "R.blocked.12345");
    assert_eq!(sentinel_key_of(&"a.b".to_string(), 700), "a.b.blocked.700");
}

#[test]
fn sentinel_key_of_the_largest_ticket() {
    let m = Mutex::new("R".to_string()).unwrap();
    assert_eq!(m.sentinel_key(u64::MAX), "R.blocked.18446744073709551615");
}

#[test]
fn decimal_is_appended_to_what_is_there() {
    let mut out = "n=".to_string();
    append_decimal(&mut out, 0);
    assert_eq!(out, "n=0");
    append_decimal(&mut out, 1009);
    assert_eq!(out, "n=01009");
}

#[test]
fn decimal_agrees_with_the_standard_formatting() {
    let samples = [0u64, 7, 10, 99, 100, 101, 4096, 999_999, 1_000_000, u64::MAX - 1];
    for n in samples {
        let mut out = String::new();
        append_decimal(&mut out, n);
        assert_eq!(out, format!("{}", n));
    }
}

#[test]
fn sentinel_keys_of_different_tickets_differ() {
    let m = Mutex::new("R".to_string()).unwrap();
    for s in 0u64..40 {
        for t in 0u64..40 {
            assert_eq!(m.sentinel_key(s) == m.sentinel_key(t), s == t);
        }
        assert_ne!(m.sentinel_key(s), m.counter_key());
    }
}

#[test]
fn empty_name_is_rejected() {
    match Mutex::new(String::new()) {
        Err(e) => assert_eq!(e, LockError::InvalidName),
        Ok(_) => panic!("an empty name was accepted"),
    }
}

#[test]
fn name_is_kept() {
    let m = Mutex::new("R".to_string()).unwrap();
    assert_eq!(m.name(), "R");
}

#[test]
fn ticket_is_written_least_significant_byte_first() {
    assert_eq!(encode_ticket(1), vec![1, 0, 0, 0, 0, 0, 0, 0]);
    assert_eq!(encode_ticket(0), vec![0, 0, 0, 0, 0, 0, 0, 0]);
    assert_eq!(encode_ticket(0x0102), vec![2, 1, 0, 0, 0, 0, 0, 0]);
    assert_eq!(
        encode_ticket(0x0807_0605_0403_0201),
        vec![1, 2, 3, 4, 5, 6, 7, 8]
    );
    assert_eq!(encode_ticket(u64::MAX), vec![255; 8]);
}

#[test]
fn ticket_is_read_back() {
    assert_eq!(decode_ticket(&vec![1, 0, 0, 0, 0, 0, 0, 0]), Some(1));
    assert_eq!(decode_ticket(&vec![0, 1, 0, 0, 0, 0, 0, 0]), Some(256));
    for n in [0u64, 1, 2, 255, 256, 65_535, 1 << 40, u64::MAX] {
        assert_eq!(decode_ticket(&encode_ticket(n)), Some(n));
    }
}

#[test]
fn value_of_another_length_is_no_ticket() {
    assert_eq!(decode_ticket(&vec![]), None);
    assert_eq!(decode_ticket(&vec![1]), None);
    assert_eq!(decode_ticket(&vec![1, 0, 0, 0, 0, 0, 0]), None);
    assert_eq!(decode_ticket(&vec![1, 0, 0, 0, 0, 0, 0, 0, 0]), None);
}

#[test]
fn placeholder_is_one_byte() {
    assert_eq!(placeholder_bytes(), vec![1u8]);
}

#[test]
fn same_bytes_compares_contents() {
    assert!(same_bytes(&vec![], &vec![]));
    assert!(same_bytes(&vec![1, 2, 3], &vec![1, 2, 3]));
    assert!(!same_bytes(&vec![1, 2, 3], &vec![1, 2, 4]));
    assert!(!same_bytes(&vec![1, 2, 3], &vec![1, 2]));
    assert!(!same_bytes(&vec![], &vec![0]));
}
