use file_transfer::bench::{benchmark_file_name, benchmark_payload, total_millis, PAYLOAD_LEN};

#[test]
fn benchmark_names() {
    assert_eq!(benchmark_file_name(0), "arq0.txt");
    assert_eq!(benchmark_file_name(42), "arq42.txt");
    assert_eq!(benchmark_file_name(299), "arq299.txt");
}

#[test]
fn payload_is_alphanumeric() {
    let p = benchmark_payload();
    assert_eq!(PAYLOAD_LEN, 64 * 64 * 64);
    assert_eq!(p.chars().count(), PAYLOAD_LEN);
    assert!(p.chars().all(|c| c.is_ascii_alphanumeric()));
}

#[test]
fn totals() {
    assert_eq!(total_millis(&[]), Some(0));
    assert_eq!(total_millis(&[3, 4, 5]), Some(12));
    assert_eq!(total_millis(&[u128::MAX, 0]), Some(u128::MAX));
    assert_eq!(total_millis(&[u128::MAX, 1]), None);
}
