use turbotransfer_core::checksum::{compute_crc32c, compute_xxhash64, crc32c_combine, Crc32cAccumulator};
use turbotransfer_core::transfer::ledger::ChunkCrcLedger;

#[test]
fn test_crc32c_combine_basic() {
    let part1 = b"Hello, ";
    let part2 = b"world! This is a test of in-flight Castagnoli CRC32C combination.";
    let full = [part1.as_slice(), part2.as_slice()].concat();

    let crc_part1 = compute_crc32c(part1);
    let crc_part2 = compute_crc32c(part2);
    let crc_full = compute_crc32c(&full);

    let combined = crc32c_combine(crc_part1, crc_part2, part2.len());
    assert_eq!(combined, crc_full, "Combined CRC must match full data CRC");
}

#[test]
fn test_crc32c_combine_multi_chunks() {
    let chunk1 = vec![0xABu8; 4096];
    let chunk2 = vec![0xCDu8; 8192];
    let chunk3 = vec![0xEFu8; 65536];
    let chunk4 = vec![0x12u8; 1048576];

    let mut full = Vec::new();
    full.extend_from_slice(&chunk1);
    full.extend_from_slice(&chunk2);
    full.extend_from_slice(&chunk3);
    full.extend_from_slice(&chunk4);

    let expected_full_crc = compute_crc32c(&full);

    let mut acc = Crc32cAccumulator::new();
    acc.combine(compute_crc32c(&chunk1), chunk1.len());
    acc.combine(compute_crc32c(&chunk2), chunk2.len());
    acc.combine(compute_crc32c(&chunk3), chunk3.len());
    acc.combine(compute_crc32c(&chunk4), chunk4.len());

    assert_eq!(acc.finalize(), expected_full_crc);
    assert_eq!(acc.total_bytes(), full.len() as u64);
}

#[test]
fn crc32c_check_value() {
    assert_eq!(compute_crc32c(b"123456789"), 0xE306_9283);
    assert_eq!(compute_crc32c(b""), 0);
}

#[test]
fn xxhash64_reference_values() {
    assert_eq!(compute_xxhash64(b""), 0xEF46_DB37_51D8_E999);
    assert_ne!(compute_xxhash64(b"a"), compute_xxhash64(b"b"));
}

#[test]
fn combine_with_empty_second_part_keeps_first() {
    let c = compute_crc32c(b"abc");
    assert_eq!(crc32c_combine(c, 0x1234_5678, 0), c);
}

#[test]
fn accumulator_update_matches_whole_checksum() {
    let data: Vec<u8> = (0..10_000u32).map(|i| (i * 7 % 251) as u8).collect();
    let mut acc = Crc32cAccumulator::new();
    acc.update(&data[..1]);
    acc.update(&data[1..5000]);
    acc.update(&[]);
    acc.update(&data[5000..]);
    assert_eq!(acc.finalize(), compute_crc32c(&data));
    assert_eq!(acc.total_bytes(), 10_000);
    let empty = Crc32cAccumulator::new();
    assert_eq!(empty.finalize(), 0);
    assert_eq!(empty.total_bytes(), 0);
}

#[test]
fn ledger_combines_chunks_in_id_order() {
    let a = vec![1u8; 300];
    let b = vec![2u8; 17];
    let c = vec![3u8; 4096];
    let mut whole = a.clone();
    whole.extend_from_slice(&b);
    whole.extend_from_slice(&c);

    let mut ledger = ChunkCrcLedger::new();
    ledger.record(2, &c);
    assert_eq!(ledger.file_crc(3), None);
    ledger.record(0, &a);
    ledger.record(1, &b);
    assert_eq!(ledger.len(), 3);
    assert_eq!(ledger.file_crc(3), Some(compute_crc32c(&whole)));
    assert_eq!(ledger.file_crc(2), None);
}
