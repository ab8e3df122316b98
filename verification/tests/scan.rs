use log_grabber::scan::{
    check_if_stop_was_requested, count_lines, line_total_fits, stop_requested, ComputationResult,
    MetadataBuilder, ScanStep, DEFAULT_SLOT_SIZE,
};
use log_grabber::channels::Received;
use log_grabber::slots::{ByteRange, GrabMetadata, LineRange, Slot};
use log_grabber::{CallbackEvent, Grabber};

fn slot(bytes: (u64, u64), lines: (u64, u64)) -> Slot {
    Slot { bytes: ByteRange::new(bytes.0, bytes.1), lines: LineRange::new(lines.0, lines.1) }
}

fn ten_lines() -> Vec<u8> {
    let mut content = Vec::new();
    for _ in 0..10 {
        content.extend_from_slice(b"0123456\n");
    }
    content
}

#[test]
fn default_slot_size_is_64_kib() {
    assert_eq!(DEFAULT_SLOT_SIZE, 65536);
}

#[test]
fn count_lines_counts_newlines() {
    assert_eq!(count_lines(b""), 0);
    assert_eq!(count_lines(b"abc"), 0);
    assert_eq!(count_lines(b"A\nB\nC\n"), 3);
    assert_eq!(count_lines(b"\n\n\r\n"), 3);
}

#[test]
fn count_lines_counts_across_chunks() {
    let mut content = Vec::new();
    for i in 0..300_000u32 {
        content.push(if i % 7 == 0 { b'\n' } else { b'x' });
    }
    assert_eq!(count_lines(&content), 42858);
}

#[test]
fn a_file_in_one_slot_counts_its_newlines_and_one() {
    let md = GrabMetadata::from_content(b"A\nB\nC\n", 16);
    assert_eq!(md.slots, vec![slot((0, 6), (0, 4))]);
    assert_eq!(md.line_count, 4);
    let md = GrabMetadata::from_content(b"X\nY\nZ", 16);
    assert_eq!(md.slots, vec![slot((0, 5), (0, 3))]);
    assert_eq!(md.line_count, 3);
}

#[test]
fn an_empty_file_has_no_slot() {
    let md = GrabMetadata::from_content(b"", 16);
    assert_eq!(md.slots, vec![]);
    assert_eq!(md.line_count, 0);
}

#[test]
fn eighty_bytes_in_slots_of_sixteen() {
    let md = GrabMetadata::from_content(&ten_lines(), 16);
    assert_eq!(
        md.slots,
        vec![
            slot((0, 16), (0, 3)),
            slot((16, 32), (3, 6)),
            slot((32, 48), (6, 9)),
            slot((48, 64), (9, 12)),
            slot((64, 80), (12, 15)),
        ]
    );
    assert_eq!(md.line_count, 15);
}

#[test]
fn a_short_last_buffer_is_the_last_slot() {
    let md = GrabMetadata::from_content(b"ab\ncd\nef\ngh", 4);
    assert_eq!(
        md.slots,
        vec![slot((0, 4), (0, 2)), slot((4, 8), (2, 4)), slot((8, 11), (4, 6))]
    );
    assert_eq!(md.line_count, 6);
}

#[test]
fn built_slots_share_their_boundaries() {
    let content: Vec<u8> = (0..5000u32).map(|i| if i % 13 == 0 { b'\n' } else { b'a' }).collect();
    for size in [1usize, 2, 3, 7, 64, 4999, 5000, 5001] {
        let md = GrabMetadata::from_content(&content, size);
        assert!(md.is_well_formed());
        for pair in md.slots.windows(2) {
            assert_eq!(pair[0].bytes.end, pair[1].bytes.start);
            assert_eq!(pair[0].lines.end, pair[1].lines.start);
        }
        assert_eq!(md.slots[0].bytes.start, 0);
        assert_eq!(md.slots.last().unwrap().bytes.end, 5000);
    }
}

#[test]
fn the_line_count_is_the_sum_of_the_slots() {
    let content = ten_lines();
    for size in [1usize, 5, 16, 80, 100] {
        let md = GrabMetadata::from_content(&content, size);
        let sum: u64 = md.slots.iter().map(|s| s.line_count()).sum();
        assert_eq!(md.line_count as u64, sum);
        assert_eq!(md.line_count, 10 + md.slots.len());
    }
}

#[test]
fn a_builder_appends_one_slot_per_buffer() {
    let mut builder = MetadataBuilder::new();
    assert!(builder.accepts(b"ab\ncd\n"));
    assert_eq!(builder.advance(false, b"ab\ncd\n"), ScanStep::Continue);
    assert_eq!(builder.byte_index(), 6);
    assert_eq!(builder.processed_lines(), 3);
    builder.push_chunk(b"xyz");
    assert_eq!(builder.byte_index(), 9);
    assert_eq!(builder.processed_lines(), 4);
    assert_eq!(builder.advance(false, b""), ScanStep::Finished);
    assert!(builder.can_finish());
    let md = builder.finish();
    assert_eq!(md.slots, vec![slot((0, 6), (0, 3)), slot((6, 9), (3, 4))]);
    assert_eq!(md.line_count, 4);
}

#[test]
fn a_builder_tells_how_far_it_has_come() {
    let mut builder = MetadataBuilder::new();
    assert_eq!(builder.progress(9), CallbackEvent::Progress { done: 0, total: 9 });
    builder.push_chunk(b"ab\ncd\n");
    assert_eq!(builder.progress(9), CallbackEvent::Progress { done: 6, total: 9 });
}

#[test]
fn a_stop_leaves_the_builder_as_it_was() {
    let mut builder = MetadataBuilder::new();
    builder.push_chunk(b"ab\n");
    assert_eq!(builder.advance(true, b"more\nbytes\n"), ScanStep::Stopped);
    assert_eq!(builder.byte_index(), 3);
    assert_eq!(builder.processed_lines(), 2);
    assert_eq!(builder.advance(true, b""), ScanStep::Stopped);
    let md = builder.finish();
    assert_eq!(md.slots, vec![slot((0, 3), (0, 2))]);
}

#[test]
fn stop_is_requested_by_a_message_or_a_lost_sender() {
    assert!(stop_requested(Some(Received::Item(()))));
    assert!(stop_requested(Some(Received::Disconnected)));
    assert!(!stop_requested(Some(Received::Empty)));
    assert!(!stop_requested(None));
}

#[test]
fn the_stop_signal_is_polled() {
    let (tx, rx) = crossbeam_channel::bounded::<()>(1);
    assert!(!check_if_stop_was_requested(None));
    assert!(!check_if_stop_was_requested(Some(&rx)));
    tx.send(()).unwrap();
    assert!(check_if_stop_was_requested(Some(&rx)));
    assert!(!check_if_stop_was_requested(Some(&rx)));
    drop(tx);
    assert!(check_if_stop_was_requested(Some(&rx)));
}

#[test]
fn a_scan_without_stop_signal_runs_to_its_end() {
    let scanned = Grabber::create_metadata_for_file(b"A\nB\nC\n", None).unwrap();
    match scanned {
        ComputationResult::Item(md) => {
            assert_eq!(md.slots, vec![slot((0, 6), (0, 4))]);
            assert_eq!(md.line_count, 4);
        }
        ComputationResult::Stopped => panic!("the scan was stopped"),
    }
}

#[test]
fn a_scan_stops_when_asked() {
    let (tx, rx) = crossbeam_channel::bounded::<()>(1);
    tx.send(()).unwrap();
    let content = vec![b'a'; 10 * DEFAULT_SLOT_SIZE];
    let scanned = Grabber::create_metadata_for_file(&content, Some(&rx));
    assert_eq!(scanned, Ok(ComputationResult::Stopped));
    let scanned = GrabMetadata::scan_content(&content, DEFAULT_SLOT_SIZE, Some(&rx));
    match scanned {
        ComputationResult::Item(md) => assert_eq!(md.slots.len(), 10),
        ComputationResult::Stopped => panic!("the scan was stopped"),
    }
}

#[test]
fn a_scan_of_nothing_stops_when_asked() {
    let (tx, rx) = crossbeam_channel::bounded::<()>(1);
    tx.send(()).unwrap();
    let scanned = GrabMetadata::scan_content(b"", 16, Some(&rx));
    assert_eq!(scanned, ComputationResult::Stopped);
    let scanned = GrabMetadata::scan_content(b"", 16, Some(&rx));
    assert_eq!(scanned, ComputationResult::Item(GrabMetadata { slots: vec![], line_count: 0 }));
}

#[test]
fn the_lines_of_a_file_in_memory_can_be_counted() {
    assert!(line_total_fits(b"", 16));
    assert!(line_total_fits(b"a\nb\n", 1));
    assert!(line_total_fits(&ten_lines(), 16));
}

#[test]
fn a_scan_asks_before_each_buffer_and_at_the_end() {
    let content = ten_lines();
    let asked = std::cell::Cell::new(0u32);
    let never = || {
        asked.set(asked.get() + 1);
        false
    };
    let scanned = GrabMetadata::scan_with(&content, 16, &never);
    match scanned {
        ComputationResult::Item(md) => assert_eq!(md.slots.len(), 5),
        ComputationResult::Stopped => panic!("the scan was stopped"),
    }
    assert_eq!(asked.get(), 6);
}

#[test]
fn a_scan_ends_at_the_first_yes() {
    let content = ten_lines();
    for at in 1..=6u32 {
        let asked = std::cell::Cell::new(0u32);
        let from_then_on = || {
            asked.set(asked.get() + 1);
            asked.get() >= at
        };
        assert_eq!(GrabMetadata::scan_with(&content, 16, &from_then_on), ComputationResult::Stopped);
        assert_eq!(asked.get(), at);
    }
    let always = || true;
    assert_eq!(GrabMetadata::scan_with(b"", 16, &always), ComputationResult::Stopped);
}
