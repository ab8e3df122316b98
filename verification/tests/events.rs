use log_grabber::{ComputationError, GeneralError, SearchOperationResult, Severity};

#[test]
fn session_errors_are_told_in_words() {
    assert_eq!(
        ComputationError::Communication("x".to_string()).to_text(),
        "Native communication error (x)"
    );
    assert_eq!(
        ComputationError::OperationNotSupported("x".to_string()).to_text(),
        "Operation not supported (x)"
    );
    assert_eq!(ComputationError::InvalidData.to_text(), "Invalid data error");
    assert_eq!(
        ComputationError::Process("x".to_string()).to_text(),
        "Error during processing: (x)"
    );
    assert_eq!(ComputationError::Protocol("x".to_string()).to_text(), "Wrong usage of API: (x)");
    assert_eq!(ComputationError::NoAssignedContent.to_text(), "No content is assigned");
}

#[test]
fn a_copy_of_an_error_is_the_error() {
    for e in [
        ComputationError::Communication("a".to_string()),
        ComputationError::OperationNotSupported("b".to_string()),
        ComputationError::InvalidData,
        ComputationError::Process("c".to_string()),
        ComputationError::Protocol("d".to_string()),
        ComputationError::NoAssignedContent,
    ] {
        assert_eq!(e.clone_error(), e);
    }
}

#[test]
fn plain_records_hold_their_fields() {
    let result = SearchOperationResult { found: 2, matches: "[1,2]".to_string() };
    assert_eq!(result.found, 2);
    let error = GeneralError { severity: Severity::ERROR, message: "m".to_string() };
    assert_eq!(error.severity, Severity::ERROR);
    assert_ne!(Severity::ERROR, Severity::WARNING);
}
