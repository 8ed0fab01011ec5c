use qmux::time::Instant;
use qmux::udp::{
    log_sendmsg_error, max_batch_bytes, next_batch_bytes, EcnCodepoint, RecvMeta, Slicer,
    SocketAddr, Transmit, TransportError, TransportErrorPayload, IO_ERROR_LOG_INTERVAL,
};

fn v4_dest() -> SocketAddr {
    SocketAddr::V4([0; 4], 0)
}

fn v6_dest() -> SocketAddr {
    SocketAddr::V6([0; 16], 0)
}

#[test]
fn max_batch_bytes_capped_by_gso_budget() {
    // 8 segments * 1200 bytes = 9600 bytes, well under the byte budget.
    assert_eq!(max_batch_bytes(8, 1200, v4_dest()), 8 * 1200);
}

#[test]
fn max_batch_bytes_capped_by_byte_limit() {
    // 64 * 1200 = 76800 bytes exceeds the byte budget, so the byte limit
    // wins: IPv4 payload budget = 65535 - 68 = 65467; IPv6 = 65535 - 48 = 65487.
    assert_eq!(max_batch_bytes(64, 1200, v4_dest()), 65535 - 68);
    assert_eq!(max_batch_bytes(64, 1200, v6_dest()), 65535 - 48);
}

#[test]
fn max_batch_bytes_differs_by_family() {
    // IPv6's smaller header overhead lets us pack 20 more bytes per batch.
    let v4 = max_batch_bytes(usize::MAX, 1, v4_dest());
    let v6 = max_batch_bytes(usize::MAX, 1, v6_dest());
    assert_eq!(v4, u16::MAX as usize - 68);
    assert_eq!(v6, u16::MAX as usize - 48);
    assert_eq!(v6 - v4, 20);
}

/// 65487 bytes (IPv6 `u16::MAX - 48`) with a segment size of 1280 are 51 full segments and a
/// 207-byte partial. The byte-based cap allows the full transmit in one call.
#[test]
fn max_batch_bytes_allows_partial_last_segment() {
    let max = max_batch_bytes(64, 1280, v6_dest());
    assert_eq!(max, 65487);
    // 51 * 1280 + 207 = 65487 — fits in one batch.
    assert!(51 * 1280 + 207 <= max);
}

#[test]
fn next_batch_bytes_final_batch_keeps_partial() {
    // Everything left fits in the budget: send it all, partial tail and all.
    assert_eq!(next_batch_bytes(65487, 65487, 1280), 65487);
    assert_eq!(next_batch_bytes(500, 65487, 1280), 500);
}

#[test]
fn next_batch_bytes_intermediate_is_segment_aligned() {
    // A transmit larger than the byte cap must be split on a segment boundary.
    let max = max_batch_bytes(64, 1280, v6_dest()); // 65487, not a multiple of 1280
    let batch = next_batch_bytes(81920, max, 1280); // 64 * 1280 = 81920
    assert_eq!(batch, 51 * 1280, "must round 65487 down to 51 whole segments");
    assert_eq!(batch % 1280, 0, "intermediate batch must be segment-aligned");
    // The remainder then rides in a second, also-aligned batch.
    assert_eq!(81920 - batch, 13 * 1280);
}

#[test]
fn next_batch_bytes_always_progresses() {
    // Even if a single segment exceeds the byte budget, send one segment so
    // the loop can't spin forever (the oversized datagram then fails loudly).
    assert_eq!(next_batch_bytes(10_000, 1000, 1500), 1500);
}

#[test]
fn next_batch_bytes_single_segment_after_gso_halt() {
    // After a GSO halt the budget drops to one segment; every batch is then
    // exactly one datagram.
    assert_eq!(next_batch_bytes(81920, 1280, 1280), 1280);
}

/// Walks the whole slicing loop over an oversized transmit: every batch is segment-aligned
/// except the final remainder.
#[test]
fn slicing_preserves_segment_alignment() {
    const SEGMENT: usize = 1280;
    let total = 100 * SEGMENT + 333; // 100 full segments + a real partial tail
    let max = max_batch_bytes(64, SEGMENT, v6_dest());

    let mut pos = 0;
    let mut batches = 0;
    while pos < total {
        let remaining = total - pos;
        let len = next_batch_bytes(remaining, max, SEGMENT);
        assert!(len > 0);
        if remaining > max {
            assert_eq!(len % SEGMENT, 0, "intermediate batch split a segment");
        }
        pos += len;
        batches += 1;
    }
    assert_eq!(pos, total, "slicing must cover exactly the whole transmit");
    assert!(batches >= 2, "this transmit should require multiple syscalls");
}

#[test]
fn effective_segment_size() {
    assert_eq!(
        make_transmit(&[0u8; 10], Some(15)).effective_segment_size(),
        None,
        "segment_size > content_len should yield no effective segment_size"
    );
    assert_eq!(
        make_transmit(&[0u8; 10], Some(10)).effective_segment_size(),
        None,
        "segment_size == content_len should yield no effective segment_size"
    );
    assert_eq!(
        make_transmit(&[0u8; 10], None).effective_segment_size(),
        None,
        "no segment_size should yield no effective segment_size"
    );
    assert_eq!(
        make_transmit(&[0u8; 10], Some(5)).effective_segment_size(),
        Some(5),
        "segment_size < content_len should yield effective segment_size"
    );
}

fn make_transmit(contents: &[u8], segment_size: Option<usize>) -> Transmit<'_> {
    Transmit {
        destination: SocketAddr::V4([0; 4], 1),
        ecn: None,
        contents,
        segment_size,
        src_ip: None,
    }
}

#[test]
fn slicer_sends_everything_in_order() {
    let contents: Vec<u8> = (0..100_333u32).map(|i| (i % 251) as u8).collect();
    let transmit = make_transmit(&contents, Some(1000));
    let mut slicer = Slicer::new(&transmit, 64);
    let mut sent = Vec::new();
    let mut lens = Vec::new();
    while let Some(batch) = slicer.next(&transmit) {
        assert_eq!(batch.segment_size, Some(1000));
        assert_eq!(batch.destination, transmit.destination);
        lens.push(batch.contents.len());
        sent.extend_from_slice(batch.contents);
        slicer.batch_sent();
    }
    assert_eq!(lens, vec![64_000, 36_333]);
    assert_eq!(sent, contents);
}

#[test]
fn slicer_falls_back_to_single_segments() {
    let contents = vec![7u8; 2500];
    let transmit = make_transmit(&contents, Some(1000));
    let mut slicer = Slicer::new(&transmit, 64);
    assert_eq!(slicer.next(&transmit).unwrap().contents.len(), 2500);
    // The batch failed and offload was halted: the same offset is retried
    assert!(slicer.can_halt_gso());
    slicer.halt_gso();
    assert!(!slicer.can_halt_gso());
    let mut lens = Vec::new();
    while let Some(batch) = slicer.next(&transmit) {
        lens.push(batch.contents.len());
        slicer.batch_sent();
    }
    assert_eq!(lens, vec![1000, 1000, 500]);
}

#[test]
fn checked_slicer_refuses_what_cannot_be_cut() {
    let contents = vec![7u8; 2500];
    let transmit = make_transmit(&contents, Some(1000));
    let mut slicer = Slicer::checked(&transmit, 2).unwrap();
    let mut lens = Vec::new();
    while let Some(batch) = slicer.next(&transmit) {
        lens.push(batch.contents.len());
        slicer.batch_sent();
    }
    assert_eq!(lens, vec![2000, 500]);

    // No octets fit a segment
    assert!(Slicer::checked(&make_transmit(&contents, Some(0)), 64).is_none());
    // The budget of a call cannot be counted
    assert!(Slicer::checked(&transmit, usize::MAX).is_none());
    // Neither a segment nor what is left after whole ones fits a datagram
    let large = vec![7u8; 140_000];
    assert!(Slicer::checked(&make_transmit(&large, None), 1).is_some());
    assert!(Slicer::checked(&make_transmit(&large, Some(70_000)), 1).is_some());
    assert!(Slicer::checked(&make_transmit(&large, Some(72_000)), 1).is_none());
    assert!(Slicer::checked(&make_transmit(&[], Some(0)), 1).is_some());
}

#[test]
fn slicer_of_an_empty_transmit_is_done() {
    let transmit = make_transmit(&[], None);
    let slicer = Slicer::new(&transmit, 64);
    assert!(slicer.next(&transmit).is_none());
}

#[test]
fn ecn_codepoints() {
    assert_eq!(EcnCodepoint::from_bits(0b00), None);
    assert_eq!(EcnCodepoint::from_bits(0b10), Some(EcnCodepoint::Ect0));
    assert_eq!(EcnCodepoint::from_bits(0b01), Some(EcnCodepoint::Ect1));
    assert_eq!(EcnCodepoint::from_bits(0b11), Some(EcnCodepoint::Ce));
    // Only the two lowest bits count
    assert_eq!(EcnCodepoint::from_bits(0b1111_1110), Some(EcnCodepoint::Ect0));
    assert_eq!(EcnCodepoint::from_bits(0b1111_1100), None);
    for c in [EcnCodepoint::Ect0, EcnCodepoint::Ect1, EcnCodepoint::Ce] {
        assert_eq!(EcnCodepoint::from_bits(c.bits()), Some(c));
    }
}

#[test]
fn recv_meta_default() {
    let meta = RecvMeta::default();
    assert_eq!(meta.addr, SocketAddr::V6([0; 16], 0));
    assert_eq!(meta.len, 0);
    assert_eq!(meta.stride, 0);
    assert_eq!(meta.ecn, None);
    assert_eq!(meta.dst_ip, None);
    assert_eq!(meta.interface_index, None);
    assert!(meta.timestamp.is_none());
}

#[test]
fn errors_are_logged_once_a_minute() {
    let mut last = Instant { nanos: 1_000 };
    let edge = 1_000 + IO_ERROR_LOG_INTERVAL;
    assert!(!log_sendmsg_error(&mut last, Instant { nanos: 0 }));
    assert!(!log_sendmsg_error(&mut last, Instant { nanos: edge }));
    assert_eq!(last, Instant { nanos: 1_000 });
    assert!(log_sendmsg_error(&mut last, Instant { nanos: edge + 1 }));
    assert_eq!(last, Instant { nanos: edge + 1 });
    assert!(!log_sendmsg_error(&mut last, Instant { nanos: edge + 2 }));
}

#[test]
fn mtu_of_too_big_errors() {
    let too_big = TransportErrorPayload::TooBig { mtu: 1400 };
    assert_eq!(TransportError::new(Some(v4_dest()), too_big, 90).mtu(), Some(1400));
    assert_eq!(TransportError::new(None, TransportErrorPayload::Unreachable, 111).mtu(), None);
    assert_eq!(TransportError::new(None, TransportErrorPayload::Other, 5).mtu(), None);
}
