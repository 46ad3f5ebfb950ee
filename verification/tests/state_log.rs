use utmmmmm::state_log::{log_ranges, parse_state_log, LogError};

fn record(steps: u64, lo: u64, hi: u64) -> Vec<u8> {
    let mut v = steps.to_le_bytes().to_vec();
    v.extend_from_slice(&lo.to_le_bytes());
    v.extend_from_slice(&hi.to_le_bytes());
    v
}

#[test]
fn a_log_reads_back_its_records() {
    let mut bytes = b"HLOG".to_vec();
    bytes.extend(record(10, 5, 9));
    bytes.extend(record(u64::MAX, 0, 300));
    bytes.extend(record(7, 2, 1 << 40));
    bytes.extend_from_slice(&[1, 2, 3]); // an incomplete record is left unread
    let recs = parse_state_log(&bytes).unwrap();
    assert_eq!(recs.len(), 3);
    assert_eq!((recs[0].steps, recs[0].min_pos, recs[0].max_pos), (10, 5, 9));
    assert_eq!((recs[1].steps, recs[1].min_pos, recs[1].max_pos), (u64::MAX, 0, 300));
    assert_eq!((recs[2].steps, recs[2].min_pos, recs[2].max_pos), (7, 2, 1 << 40));
    assert_eq!(log_ranges(&recs), Some((7, u64::MAX, 0, 1 << 40)));
}

#[test]
fn other_files_are_refused() {
    assert!(matches!(parse_state_log(b"HLO"), Err(LogError::NotAStateLog)));
    assert!(matches!(parse_state_log(b"PLOG0000"), Err(LogError::NotAStateLog)));
    let empty = parse_state_log(b"HLOG").unwrap();
    assert!(empty.is_empty());
    assert_eq!(log_ranges(&empty), None);
}
