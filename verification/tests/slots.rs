use log_grabber::slots::{ByteRange, GrabMetadata, LineRange, Slot};

fn slot(bytes: (u64, u64), lines: (u64, u64)) -> Slot {
    Slot { bytes: ByteRange::new(bytes.0, bytes.1), lines: LineRange::new(lines.0, lines.1) }
}

fn three_slots() -> GrabMetadata {
    GrabMetadata {
        slots: vec![slot((0, 16), (0, 3)), slot((16, 32), (3, 6)), slot((32, 40), (6, 8))],
        line_count: 8,
    }
}

#[test]
fn byte_range_new_keeps_its_bounds() {
    let r = ByteRange::new(3, 9);
    assert_eq!(r.start, 3);
    assert_eq!(r.end, 9);
}

#[test]
fn line_range_new_keeps_its_bounds() {
    let r = LineRange::new(4, 7);
    assert_eq!(r.start, 4);
    assert_eq!(r.end, 7);
}

#[test]
fn line_range_from_inclusive_adds_one_to_the_end() {
    assert_eq!(LineRange::from_inclusive(4, 6), LineRange::new(4, 7));
    assert_eq!(LineRange::from_inclusive(0, 0), LineRange::new(0, 1));
}

#[test]
fn slot_counts_bytes_and_lines() {
    let s = slot((16, 32), (3, 6));
    assert_eq!(s.byte_count(), 16);
    assert_eq!(s.line_count(), 3);
}

#[test]
fn empty_table_holds_no_line() {
    let md = GrabMetadata { slots: vec![], line_count: 0 };
    assert!(md.is_well_formed());
    assert_eq!(md.identify_slot(0), None);
    assert_eq!(md.identify_slot(7), None);
}

#[test]
fn identify_slot_finds_the_slot_of_each_line() {
    let md = three_slots();
    assert!(md.is_well_formed());
    for line in 0..3 {
        assert_eq!(md.identify_slot(line), Some(slot((0, 16), (0, 3))));
    }
    for line in 3..6 {
        assert_eq!(md.identify_slot(line), Some(slot((16, 32), (3, 6))));
    }
    for line in 6..8 {
        assert_eq!(md.identify_slot(line), Some(slot((32, 40), (6, 8))));
    }
}

#[test]
fn identify_slot_finds_a_slot_exactly_below_the_line_count() {
    let md = three_slots();
    for line in 0..20u64 {
        assert_eq!(md.identify_slot(line).is_some(), line < 8);
    }
    assert_eq!(md.identify_slot(u64::MAX), None);
}

#[test]
fn identify_slot_gives_the_same_answer_again() {
    let md = three_slots();
    for line in 0..10u64 {
        assert_eq!(md.identify_slot(line), md.identify_slot(line));
    }
}

#[test]
fn identify_slot_works_on_many_slots() {
    let mut slots = Vec::new();
    for k in 0..1000u64 {
        slots.push(slot((k * 10, k * 10 + 10), (k * 3, k * 3 + 3)));
    }
    let md = GrabMetadata { slots, line_count: 3000 };
    assert!(md.is_well_formed());
    for line in 0..3000u64 {
        let found = md.identify_slot(line).unwrap();
        assert_eq!(found.lines.start, line / 3 * 3);
        assert_eq!(found.bytes.start, line / 3 * 10);
    }
    assert_eq!(md.identify_slot(3000), None);
}

#[test]
fn a_table_with_a_gap_is_not_well_formed() {
    let md = GrabMetadata {
        slots: vec![slot((0, 16), (0, 3)), slot((17, 32), (3, 6))],
        line_count: 6,
    };
    assert!(!md.is_well_formed());
    let md = GrabMetadata {
        slots: vec![slot((0, 16), (0, 3)), slot((16, 32), (4, 6))],
        line_count: 6,
    };
    assert!(!md.is_well_formed());
}

#[test]
fn a_table_with_an_empty_slot_is_not_well_formed() {
    let md = GrabMetadata { slots: vec![slot((0, 0), (0, 1))], line_count: 1 };
    assert!(!md.is_well_formed());
    let md = GrabMetadata { slots: vec![slot((0, 4), (0, 0))], line_count: 0 };
    assert!(!md.is_well_formed());
}

#[test]
fn a_table_must_begin_at_zero_and_end_at_its_line_count() {
    let md = GrabMetadata { slots: vec![slot((1, 4), (0, 2))], line_count: 2 };
    assert!(!md.is_well_formed());
    let md = GrabMetadata { slots: vec![slot((0, 4), (1, 2))], line_count: 2 };
    assert!(!md.is_well_formed());
    let md = GrabMetadata { slots: vec![slot((0, 4), (0, 2))], line_count: 3 };
    assert!(!md.is_well_formed());
    let md = GrabMetadata { slots: vec![], line_count: 1 };
    assert!(!md.is_well_formed());
}
