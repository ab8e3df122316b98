use log_grabber::scan::ComputationResult;
use log_grabber::slots::{ByteRange, GrabMetadata, LineRange, Slot};
use log_grabber::{GrabError, GrabbedContent, GrabbedElement, Grabber, ReadPlan};

fn slot(bytes: (u64, u64), lines: (u64, u64)) -> Slot {
    Slot { bytes: ByteRange::new(bytes.0, bytes.1), lines: LineRange::new(lines.0, lines.1) }
}

fn grabber_for(content: &[u8], slot_size: usize) -> Grabber {
    let md = GrabMetadata::from_content(content, slot_size);
    Grabber::new(
        "file.txt",
        "src",
        content.len() as u64,
        *content.last().unwrap(),
        ComputationResult::Item(md),
    )
    .unwrap()
}

fn element(content: &str) -> GrabbedElement {
    GrabbedElement { source_id: "src".to_string(), content: content.to_string(), row: None, pos: None }
}

fn contents(grabbed: &GrabbedContent) -> Vec<String> {
    grabbed.grabbed_elements.iter().map(|e| e.content.clone()).collect()
}

fn ten_lines() -> Vec<u8> {
    let mut content = Vec::new();
    for _ in 0..10 {
        content.extend_from_slice(b"0123456\n");
    }
    content
}

#[test]
fn an_empty_file_cannot_be_grabbed() {
    let lazy = Grabber::lazy("empty.txt", "src", 0, 0);
    assert_eq!(lazy.unwrap_err(), GrabError::Config("Cannot grab empty file".to_string()));
    let md = GrabMetadata { slots: vec![], line_count: 0 };
    let new = Grabber::new("empty.txt", "src", 0, 0, ComputationResult::Item(md));
    assert_eq!(new.unwrap_err(), GrabError::Config("Cannot grab empty file".to_string()));
}

#[test]
fn a_lazy_grabber_has_no_table() {
    let grabber = Grabber::lazy("a/b.txt", "one", 12, b'\n').unwrap();
    assert_eq!(grabber.path(), "a/b.txt");
    assert_eq!(grabber.source_id(), "one");
    assert_eq!(grabber.input_file_size(), 12);
    assert!(grabber.last_line_empty());
    assert!(grabber.metadata().is_none());
    assert!(grabber.needs_metadata());
    assert_eq!(grabber.log_entry_count(), None);
    assert_eq!(grabber.identify_slot(0), None);
    let grabber = Grabber::lazy("a/b.txt", "one", 12, b'x').unwrap();
    assert!(!grabber.last_line_empty());
    let grabber = Grabber::lazy("a/b.txt", "one", 12, b'\r').unwrap();
    assert!(grabber.last_line_empty());
}

#[test]
fn a_stopped_scan_gives_no_grabber() {
    let r = Grabber::new("f", "s", 5, b'x', ComputationResult::Stopped);
    assert_eq!(r.unwrap_err(), GrabError::Interrupted);
}

#[test]
fn a_malformed_table_is_refused() {
    let broken = GrabMetadata { slots: vec![slot((0, 4), (0, 2))], line_count: 9 };
    let r = Grabber::new("f", "s", 4, b'x', ComputationResult::Item(broken.clone()));
    assert_eq!(r.unwrap_err(), GrabError::Config("Malformed metadata".to_string()));

    let mut grabber = Grabber::lazy("f", "s", 4, b'x').unwrap();
    assert_eq!(
        grabber.create_metadata(ComputationResult::Item(broken.clone())),
        Err(GrabError::Config("Malformed metadata".to_string()))
    );
    assert!(grabber.metadata().is_none());
    assert_eq!(
        grabber.inject_metadata(broken.clone()),
        Err(GrabError::Config("Malformed metadata".to_string()))
    );
    assert!(grabber.metadata().is_none());
    let loaded = grabber.load_metadata(broken);
    assert_eq!(
        loaded.unwrap_err(),
        GrabError::Config("Could not deserialize metadata".to_string())
    );
}

#[test]
fn a_table_is_created_once() {
    let first = GrabMetadata { slots: vec![slot((0, 4), (0, 2))], line_count: 2 };
    let second = GrabMetadata { slots: vec![slot((0, 4), (0, 3))], line_count: 3 };
    let mut grabber = Grabber::lazy("f", "s", 4, b'x').unwrap();
    assert_eq!(grabber.create_metadata(ComputationResult::Stopped), Ok(()));
    assert!(grabber.metadata().is_none());
    assert_eq!(grabber.create_metadata(ComputationResult::Item(first.clone())), Ok(()));
    assert_eq!(grabber.metadata(), Some(&first));
    assert!(!grabber.needs_metadata());
    assert_eq!(grabber.create_metadata(ComputationResult::Item(second.clone())), Ok(()));
    assert_eq!(grabber.metadata(), Some(&first));
    assert_eq!(grabber.log_entry_count(), Some(2));
    assert_eq!(grabber.inject_metadata(second.clone()), Ok(()));
    assert_eq!(grabber.metadata(), Some(&second));
    assert_eq!(grabber.log_entry_count(), Some(3));
}

#[test]
fn a_stored_table_is_loaded() {
    let stored = GrabMetadata { slots: vec![slot((0, 4), (0, 2))], line_count: 2 };
    let grabber = Grabber::lazy("f", "s", 4, b'x').unwrap().load_metadata(stored.clone()).unwrap();
    assert_eq!(grabber.metadata(), Some(&stored));
    assert_eq!(grabber.path(), "f");
    assert_eq!(grabber.identify_slot(1), Some(slot((0, 4), (0, 2))));
    assert_eq!(grabber.identify_slot(2), None);
}

#[test]
fn tiny_text_file() {
    let content = b"A\nB\nC\n";
    let grabber = grabber_for(content, 65536);
    assert_eq!(grabber.log_entry_count(), Some(4));
    let all = grabber.get_entries(&LineRange::new(0, 3), content).unwrap();
    assert_eq!(all.grabbed_elements, vec![element("A"), element("B"), element("C")]);
    let one = grabber.get_entries(&LineRange::new(1, 2), content).unwrap();
    assert_eq!(one.grabbed_elements, vec![element("B")]);
}

#[test]
fn no_trailing_newline() {
    let content = b"X\nY\nZ";
    let grabber = grabber_for(content, 65536);
    assert_eq!(grabber.log_entry_count(), Some(3));
    let last = grabber.get_entries(&LineRange::new(2, 3), content).unwrap();
    assert_eq!(last.grabbed_elements, vec![element("Z")]);
}

#[test]
fn cross_slot_read() {
    let content = ten_lines();
    let grabber = grabber_for(&content, 16);
    let plan = grabber.plan_read(&LineRange::new(4, 7)).unwrap().unwrap();
    assert_eq!(plan, ReadPlan { bytes: ByteRange::new(16, 48), to_skip: 1, to_take: 3 });
    let got = grabber.get_entries(&LineRange::new(4, 7), &content).unwrap();
    assert_eq!(contents(&got), vec!["0123456", "0123456", "0123456"]);
}

#[test]
fn the_full_range_of_a_single_slot_yields_every_line() {
    let content = b"A\nB\nC\n";
    let grabber = grabber_for(content, 65536);
    let n = grabber.log_entry_count().unwrap() as u64;
    let all = grabber.get_entries(&LineRange::new(0, n), content).unwrap();
    assert_eq!(contents(&all), vec!["A", "B", "C", ""]);
    assert_eq!(all.grabbed_elements.len() as u64, n);
}

#[test]
fn the_full_range_needs_a_line_for_every_slot() {
    let content = ten_lines();
    let grabber = grabber_for(&content, 16);
    let n = grabber.log_entry_count().unwrap() as u64;
    assert_eq!(n, 15);
    let all = grabber.get_entries(&LineRange::new(0, n), &content).unwrap();
    assert_eq!(all.grabbed_elements.len(), 11);

    let with_returns = b"ab\rcd\ref\rgh\rij\n";
    let grabber = grabber_for(with_returns, 4);
    let n = grabber.log_entry_count().unwrap() as u64;
    assert_eq!(n, 5);
    let all = grabber.get_entries(&LineRange::new(0, n), with_returns).unwrap();
    assert_eq!(contents(&all), vec!["ab", "cd", "ef", "gh", "ij"]);
}

#[test]
fn a_read_from_one_slot_gives_the_lines_of_a_full_scan() {
    let content = b"first\nsecond\rthird\n\nfifth";
    let text = String::from_utf8(content.to_vec()).unwrap();
    let scan: Vec<&str> = text.split(|c| c == '\n' || c == '\r').collect();
    let grabber = grabber_for(content, 65536);
    let n = grabber.log_entry_count().unwrap() as u64;
    assert_eq!(n, 4);
    for start in 0..n {
        for count in 1..=(n - start) {
            let got = grabber.get_entries(&LineRange::new(start, start + count), content).unwrap();
            let want: Vec<&str> =
                scan[start as usize..(start + count) as usize].iter().cloned().collect();
            assert_eq!(contents(&got), want);
        }
    }
}

#[test]
fn a_read_across_slots_can_miss_the_lines_of_a_full_scan() {
    let content = ten_lines();
    let grabber = grabber_for(&content, 16);
    let got = grabber.get_entries(&LineRange::new(2, 3), &content).unwrap();
    assert_eq!(contents(&got), vec![""]);
}

#[test]
fn a_range_without_lines_is_invalid() {
    let content = b"A\nB\nC\n";
    let grabber = grabber_for(content, 65536);
    let r = grabber.get_entries(&LineRange::new(2, 2), content);
    assert_eq!(r.unwrap_err(), GrabError::InvalidRange(LineRange::new(2, 2)));
    let r = grabber.get_entries(&LineRange::new(3, 1), content);
    assert_eq!(r.unwrap_err(), GrabError::InvalidRange(LineRange::new(3, 1)));
    let r = grabber.plan_read(&LineRange::new(3, 1));
    assert_eq!(r.unwrap_err(), GrabError::InvalidRange(LineRange::new(3, 1)));
    let lazy = Grabber::lazy("f", "s", 6, b'\n').unwrap();
    let r = lazy.get_entries(&LineRange::new(3, 1), content);
    assert_eq!(r.unwrap_err(), GrabError::InvalidRange(LineRange::new(3, 1)));
}

#[test]
fn a_grabber_without_table_cannot_read() {
    let lazy = Grabber::lazy("f", "s", 6, b'\n').unwrap();
    let r = lazy.get_entries(&LineRange::new(0, 1), b"A\nB\nC\n");
    assert_eq!(r.unwrap_err(), GrabError::Config("No metadata available".to_string()));
}

#[test]
fn a_range_past_the_end_yields_nothing() {
    let content = b"A\nB\nC\n";
    let grabber = grabber_for(content, 65536);
    let got = grabber.get_entries(&LineRange::new(0, 5), content).unwrap();
    assert_eq!(got.grabbed_elements, vec![]);
    let got = grabber.get_entries(&LineRange::new(4, 5), content).unwrap();
    assert_eq!(got.grabbed_elements, vec![]);
    assert_eq!(grabber.plan_read(&LineRange::new(4, 5)), Ok(None));
}

#[test]
fn a_file_shorter_than_its_table_fails_the_read() {
    let content = b"A\nB\nC\n";
    let grabber = grabber_for(content, 65536);
    let r = grabber.get_entries(&LineRange::new(0, 1), b"A\nB");
    assert_eq!(r.unwrap_err(), GrabError::IoOperation("failed to fill whole buffer".to_string()));
}

#[test]
fn lines_are_decoded_leniently() {
    let content = "gr\u{fc}n\n\u{65e5}\u{672c}\n".as_bytes();
    let grabber = grabber_for(content, 65536);
    let got = grabber.get_entries(&LineRange::new(0, 2), content).unwrap();
    assert_eq!(contents(&got), vec!["gr\u{fc}n", "\u{65e5}\u{672c}"]);
    let broken = b"ok\n\xff\xfe\nend";
    let grabber = grabber_for(broken, 65536);
    let got = grabber.get_entries(&LineRange::new(0, 3), broken).unwrap();
    assert_eq!(contents(&got), vec!["ok", "\u{fffd}\u{fffd}", "end"]);
}

#[test]
fn entries_in_window_follow_the_plan() {
    let grabber = Grabber::lazy("f", "src", 6, b'\n').unwrap();
    let plan = ReadPlan { bytes: ByteRange::new(10, 20), to_skip: 1, to_take: 2 };
    let got = grabber.entries_in_window(&plan, b"a\nb\nc\nd\n");
    assert_eq!(got.grabbed_elements, vec![element("b"), element("c")]);
}

#[test]
fn grab_errors_are_told_in_words() {
    assert_eq!(
        GrabError::Config("Cannot grab empty file".to_string()).to_text(),
        "Configuration error (Cannot grab empty file)"
    );
    assert_eq!(
        GrabError::Communication("gone".to_string()).to_text(),
        "Channel-Communication error (gone)"
    );
    assert_eq!(
        GrabError::IoOperation("failed to fill whole buffer".to_string()).to_text(),
        "IO error while grabbing: (failed to fill whole buffer)"
    );
    assert_eq!(
        GrabError::InvalidRange(LineRange::new(30, 7)).to_text(),
        "Invalid range: (LineRange { start: 30, end: 7 })"
    );
    assert_eq!(
        GrabError::InvalidRange(LineRange::new(30, 7)).to_text(),
        format!("Invalid range: ({:?})", LineRange::new(30, 7))
    );
    assert_eq!(GrabError::Interrupted.to_text(), "Grabber interrupted");
}

#[test]
fn entries_are_read_through_a_reader() {
    let content = ten_lines();
    let grabber = grabber_for(&content, 16);
    let asked = std::cell::RefCell::new(Vec::new());
    let read = |path: &str, from: u64, to: u64| -> Result<Vec<u8>, String> {
        asked.borrow_mut().push((path.to_string(), from, to));
        Ok(content[from as usize..to as usize].to_vec())
    };
    let got = grabber.get_entries_from(&LineRange::new(4, 7), &read).unwrap();
    assert_eq!(contents(&got), vec!["0123456", "0123456", "0123456"]);
    assert_eq!(asked.borrow().clone(), vec![("file.txt".to_string(), 16, 48)]);
    let got = grabber.get_entries_from(&LineRange::new(20, 21), &read).unwrap();
    assert_eq!(got.grabbed_elements, vec![]);
    assert_eq!(asked.borrow().len(), 1);
    let r = grabber.get_entries_from(&LineRange::new(3, 1), &read);
    assert_eq!(r.unwrap_err(), GrabError::InvalidRange(LineRange::new(3, 1)));
    let broken = |_: &str, _: u64, _: u64| -> Result<Vec<u8>, String> { Err("gone".to_string()) };
    let r = grabber.get_entries_from(&LineRange::new(0, 1), &broken);
    assert_eq!(r.unwrap_err(), GrabError::IoOperation("gone".to_string()));
    let lazy = Grabber::lazy("f", "s", 6, b'\n').unwrap();
    let r = lazy.get_entries_from(&LineRange::new(0, 1), &read);
    assert_eq!(r.unwrap_err(), GrabError::Config("No metadata available".to_string()));
}
