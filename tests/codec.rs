use rx_history::Compressed;

#[test]
fn round_trip_empty_buffer() {
    let c = Compressed::from(&[]);
    assert_eq!(c.decompress(), Vec::<u8>::new());
}

#[test]
fn round_trip_bytes() {
    let input: Vec<u8> = (0..=255u8).chain(0..=255u8).collect();
    let c = Compressed::from(&input);
    assert_eq!(c.decompress(), input);
}

#[test]
fn repeated_bytes_compress_smaller() {
    let input = vec![7u8; 4096];
    let c = Compressed::from(&input);
    assert!(c.compressed_len() < input.len());
    assert_eq!(c.decompress(), input);
}
