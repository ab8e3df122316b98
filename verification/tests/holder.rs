use log_grabber::channels::Received;
use log_grabber::holder::{listener_step, scan_report, IndexingProgress, ListenerStep};
use log_grabber::scan::ComputationResult;
use log_grabber::GrabError;
use log_grabber::slots::GrabMetadata;
use log_grabber::{ComputationError, Grabber, GrabberHolder};

fn reading<'a>(file: &'a [u8]) -> impl Fn(&str, u64, u64) -> Result<Vec<u8>, String> + 'a {
    move |_path: &str, from: u64, to: u64| {
        if from <= to && to <= file.len() as u64 {
            Ok(file[from as usize..to as usize].to_vec())
        } else {
            Err("failed to fill whole buffer".to_string())
        }
    }
}

fn contents(grabbed: &log_grabber::GrabbedContent) -> Vec<String> {
    grabbed.grabbed_elements.iter().map(|e| e.content.clone()).collect()
}

#[test]
fn a_holder_reads_once_the_table_has_arrived() {
    let content = b"A\nB\nC\n";
    let mut holder = GrabberHolder::new(Grabber::lazy("f", "src", 6, b'\n').unwrap());
    assert_eq!(
        holder.sync_computation(0, 2, &reading(content)),
        Err(ComputationError::Communication(
            "Configuration error (No metadata available)".to_string()
        ))
    );
    assert_eq!(holder.execute(content, None), Ok(()));
    let got = holder.sync_computation(0, 2, &reading(content)).unwrap();
    assert_eq!(contents(&got), vec!["A", "B"]);
    assert_eq!(holder.grabber().log_entry_count(), Some(4));
}

#[test]
fn a_stopped_scan_leaves_the_holder_without_table() {
    let content = b"A\nB\nC\n";
    let mut holder = GrabberHolder::new(Grabber::lazy("f", "src", 6, b'\n').unwrap());
    holder.request_stop();
    let stop = holder.shutdown_receiver();
    assert_eq!(holder.execute(content, Some(&stop)), Ok(()));
    assert!(holder.sync_computation(0, 2, &reading(content)).is_err());
    assert!(holder.grabber().metadata().is_none());
}

#[test]
fn a_holder_keeps_the_table_it_has() {
    let first = GrabMetadata::from_content(b"A\nB\nC\n", 65536);
    let second = GrabMetadata::from_content(b"x\n", 65536);
    let mut holder = GrabberHolder::new(Grabber::lazy("f", "src", 6, b'\n').unwrap());
    holder.accept_metadata(Received::Empty);
    assert!(holder.grabber().metadata().is_none());
    holder.accept_metadata(Received::Item(None));
    assert!(holder.grabber().metadata().is_none());
    holder.accept_metadata(Received::Item(Some(GrabMetadata { slots: vec![], line_count: 5 })));
    assert!(holder.grabber().metadata().is_none());
    holder.accept_metadata(Received::Item(Some(first.clone())));
    assert_eq!(holder.grabber().metadata(), Some(&first));
    holder.accept_metadata(Received::Item(Some(second)));
    assert_eq!(holder.grabber().metadata(), Some(&first));
}

#[test]
fn a_listener_passes_progress_on_and_leaves_at_the_end() {
    assert_eq!(
        listener_step(&IndexingProgress::<()>::Progress { done: 3, total: 9 }),
        ListenerStep::Report { done: 3, total: 9 }
    );
    assert_eq!(listener_step(&IndexingProgress::GotItem { item: 7u8 }), ListenerStep::Wait);
    assert_eq!(listener_step(&IndexingProgress::<()>::Stopped), ListenerStep::Leave);
    assert_eq!(listener_step(&IndexingProgress::<()>::Finished), ListenerStep::Leave);
}

#[test]
fn the_outcome_of_a_scan_decides_what_is_handed_over() {
    let md = GrabMetadata::from_content(b"A\n", 65536);
    let report = scan_report(Ok(ComputationResult::Item(md.clone())));
    assert_eq!(report.message, Some(Some(md)));
    assert_eq!(report.result, Ok(()));
    let report = scan_report(Ok(ComputationResult::Stopped));
    assert_eq!(report.message, Some(None));
    assert_eq!(report.result, Ok(()));
    let report = scan_report(Err(GrabError::Interrupted));
    assert_eq!(report.message, None);
    assert_eq!(
        report.result,
        Err(ComputationError::Communication("Could not create metadata".to_string()))
    );
}
