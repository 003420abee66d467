use smartdns::audit::{needs_rotation, rotation_plan, AuditEntry, AuditQueue};
use smartdns::cache::prefetch_due;
use smartdns::frame::{encode_frame, parse_frame, Frame, MAX_FRAME};
use smartdns::message::Rcode;

fn entry(at: u64) -> AuditEntry {
    AuditEntry { at, qtype: 1, rcode: Rcode::NoError, latency_ms: 3, cache_hit: false, upstream: Some(0) }
}

#[test]
fn frame_round_trip() {
    let msg = vec![7u8; 300];
    let framed = encode_frame(&msg).unwrap();
    assert_eq!(&framed[..2], &[1u8, 44u8]);
    assert_eq!(parse_frame(&framed), Frame::Complete(300));
    assert_eq!(&framed[2..], &msg[..]);
}

#[test]
fn frame_incomplete_and_trailing_bytes() {
    assert_eq!(parse_frame(&[]), Frame::Incomplete);
    assert_eq!(parse_frame(&[0]), Frame::Incomplete);
    assert_eq!(parse_frame(&[0, 3, 1, 2]), Frame::Incomplete);
    assert_eq!(parse_frame(&[0, 3, 1, 2, 3]), Frame::Complete(3));
    assert_eq!(parse_frame(&[0, 3, 1, 2, 3, 9, 9]), Frame::Complete(3));
    assert_eq!(parse_frame(&[0, 0]), Frame::Complete(0));
}

#[test]
fn frame_largest_and_too_large() {
    let largest = vec![0u8; MAX_FRAME];
    let f = encode_frame(&largest).unwrap();
    assert_eq!(&f[..2], &[255u8, 255u8]);
    assert_eq!(parse_frame(&f), Frame::Complete(MAX_FRAME));
    assert_eq!(encode_frame(&vec![0u8; MAX_FRAME + 1]), None);
}

#[test]
fn audit_queue_drops_when_full() {
    let mut q = AuditQueue::new(2);
    assert!(q.offer(entry(1)));
    assert!(q.offer(entry(2)));
    assert!(!q.offer(entry(3)));
    assert!(!q.offer(entry(4)));
    assert_eq!(q.dropped, 2);
    assert_eq!(q.take_all(), vec![entry(1), entry(2)]);
    assert!(q.pending.is_empty());
    assert!(q.offer(entry(5)));
    assert_eq!(q.dropped, 2);
}

#[test]
fn audit_rotation() {
    assert!(!needs_rotation(100, 20, 120));
    assert!(needs_rotation(100, 21, 120));
    assert!(needs_rotation(u64::MAX, u64::MAX, u64::MAX));
    assert_eq!(rotation_plan(3), vec![(2, 3), (1, 2), (0, 1)]);
    assert!(rotation_plan(0).is_empty());
}

#[test]
fn prefetch_threshold() {
    // 60 s entry, refresh once less than 10% (6 s) remains
    assert!(!prefetch_due(60, 0, 54, 10));
    assert!(prefetch_due(60, 0, 55, 10));
    assert!(prefetch_due(60, 0, 100, 10));
    assert!(!prefetch_due(60, 100, 50, 10));
    assert!(!prefetch_due(60, 0, 59, 0));
}
