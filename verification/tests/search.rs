use log_grabber::search::{
    coalesce_positions, find_matches, render_matches, search_positions, unwrap_filters,
    PositionRun,
};
use log_grabber::slots::{GrabMetadata, LineRange};
use log_grabber::{ComputationError, GrabbedContent, GrabbedElement, SearchFilter, WrappedSearchFilter};

fn run(first: u64, last: u64) -> PositionRun {
    PositionRun { first, last }
}

fn page(lines: &[&str]) -> GrabbedContent {
    GrabbedContent {
        grabbed_elements: lines
            .iter()
            .map(|l| GrabbedElement {
                source_id: "search_results".to_string(),
                content: l.to_string(),
                row: None,
                pos: None,
            })
            .collect(),
    }
}

fn filter(value: &str) -> SearchFilter {
    SearchFilter { value: value.to_string(), is_regex: true, ignore_case: false, is_word: true }
}

#[test]
fn as_filter_gives_the_filter_inside() {
    let wrapped = WrappedSearchFilter(filter("abc"));
    assert_eq!(wrapped.as_filter(), filter("abc"));
    let list = vec![WrappedSearchFilter(filter("a")), WrappedSearchFilter(filter("b"))];
    assert_eq!(unwrap_filters(&list), vec![filter("a"), filter("b")]);
    assert_eq!(unwrap_filters(&vec![]), vec![]);
}

#[test]
fn a_filter_is_built_from_its_properties() {
    let built = WrappedSearchFilter::from_properties(
        Some("err".to_string()),
        Some(true),
        Some(false),
        Some(true),
    );
    assert_eq!(
        built,
        Ok(WrappedSearchFilter(SearchFilter {
            value: "err".to_string(),
            is_regex: true,
            ignore_case: true,
            is_word: false,
        }))
    );
}

#[test]
fn the_first_missing_property_is_named() {
    let v = Some("err".to_string());
    assert_eq!(
        WrappedSearchFilter::from_properties(None, None, None, None),
        Err("[value] property is not found".to_string())
    );
    assert_eq!(
        WrappedSearchFilter::from_properties(v.clone(), None, None, None),
        Err("[is_regex] property is not found".to_string())
    );
    assert_eq!(
        WrappedSearchFilter::from_properties(v.clone(), Some(true), None, None),
        Err("[is_word] property is not found".to_string())
    );
    assert_eq!(
        WrappedSearchFilter::from_properties(v.clone(), Some(true), Some(true), None),
        Err("[ignore_case] property is not found".to_string())
    );
    assert_eq!(
        WrappedSearchFilter::from_properties(None, Some(true), Some(true), Some(true)),
        Err("[value] property is not found".to_string())
    );
}

#[test]
fn line_numbers_that_follow_one_another_form_a_run() {
    assert_eq!(coalesce_positions(&vec![]), vec![]);
    assert_eq!(coalesce_positions(&vec![43]), vec![run(43, 43)]);
    assert_eq!(coalesce_positions(&vec![1, 2, 3]), vec![run(1, 3)]);
    assert_eq!(
        coalesce_positions(&vec![1, 2, 3, 7, 9, 10, 20]),
        vec![run(1, 3), run(7, 7), run(9, 10), run(20, 20)]
    );
}

#[test]
fn numbers_out_of_order_begin_new_runs() {
    assert_eq!(coalesce_positions(&vec![5, 4]), vec![run(5, 5), run(4, 4)]);
    assert_eq!(coalesce_positions(&vec![3, 3]), vec![run(3, 3), run(3, 3)]);
    assert_eq!(
        coalesce_positions(&vec![u64::MAX - 1, u64::MAX, 0]),
        vec![run(u64::MAX - 1, u64::MAX), run(0, 0)]
    );
}

#[test]
fn runs_written_out_are_the_numbers_again() {
    let positions: Vec<u64> = vec![4, 5, 6, 8, 10, 11, 11, 12, 3];
    let runs = coalesce_positions(&positions);
    let mut written = Vec::new();
    for r in &runs {
        for p in r.first..=r.last {
            written.push(p);
        }
    }
    assert_eq!(written, positions);
    for pair in runs.windows(2) {
        assert_ne!(pair[0].last + 1, pair[1].first);
    }
}

#[test]
fn a_run_names_lines_that_count_from_zero() {
    assert_eq!(run(43, 43).to_line_range(), LineRange::new(42, 43));
    assert_eq!(run(1, 3).to_line_range(), LineRange::new(0, 3));
}

#[test]
fn line_numbers_are_read_from_a_page() {
    assert_eq!(search_positions(&page(&[])), Ok(vec![]));
    assert_eq!(search_positions(&page(&["43"])), Ok(vec![43]));
    assert_eq!(search_positions(&page(&["1", "2", "10"])), Ok(vec![1, 2, 10]));
}

#[test]
fn the_first_element_that_is_no_line_number_fails_the_page() {
    assert_eq!(
        search_positions(&page(&["1", "x2", "y3"])),
        Err(ComputationError::Process("invalid line number: x2".to_string()))
    );
    assert_eq!(
        search_positions(&page(&["43", ""])),
        Err(ComputationError::Process("invalid line number: ".to_string()))
    );
    assert_eq!(
        search_positions(&page(&["0"])),
        Err(ComputationError::Process("invalid line number: 0".to_string()))
    );
}

#[test]
fn matches_are_written_one_per_line_counted_from_one() {
    assert_eq!(render_matches(&vec![7, 7]), "8\n8");
    assert_eq!(render_matches(&vec![]), "");
    assert_eq!(render_matches(&vec![42]), "43");
    assert_eq!(render_matches(&vec![0, 19, 299]), "1\n20\n300");
    assert_eq!(render_matches(&vec![u64::MAX]), "18446744073709551616");
}

#[test]
fn what_is_written_for_a_match_is_read_back_as_its_line_number() {
    let matches: Vec<u64> = vec![0, 1, 5, 41, 999];
    let text = render_matches(&matches);
    let lines: Vec<&str> = text.lines().collect();
    let numbers = search_positions(&page(&lines)).unwrap();
    let want: Vec<u64> = matches.iter().map(|m| m + 1).collect();
    assert_eq!(numbers, want);
}

#[test]
fn matching_lines_are_found_by_their_number() {
    let content = b"apple\nbanana\ncherry\napricot";
    assert_eq!(find_matches(content, |line: &[u8]| line.starts_with(b"a")), vec![0, 3]);
    assert_eq!(find_matches(content, |line: &[u8]| line.contains(&b'n')), vec![1]);
    assert_eq!(find_matches(content, |_: &[u8]| true), vec![0, 1, 2, 3]);
    assert_eq!(find_matches(content, |_: &[u8]| false), vec![]);
}

#[test]
fn the_piece_behind_the_last_break_is_a_line_too() {
    assert_eq!(find_matches(b"a\nb\n", |line: &[u8]| line.is_empty()), vec![2]);
    assert_eq!(find_matches(b"", |line: &[u8]| line.is_empty()), vec![0]);
    assert_eq!(find_matches(b"a\r\nb", |_: &[u8]| true), vec![0, 1, 2]);
}

#[test]
fn a_results_file_counts_as_many_lines_as_there_are_matches() {
    for matches in [vec![42u64], vec![0, 19, 299], vec![1, 2, 3, 4, 5, 6, 7, 8, 9, 10, 11]] {
        let text = render_matches(&matches);
        let scanned = GrabMetadata::from_content(text.as_bytes(), 65536);
        assert_eq!(scanned.line_count, matches.len());
        assert_eq!(scanned.slots.len(), 1);
    }
}
