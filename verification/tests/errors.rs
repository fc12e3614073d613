use leveldb::get_outcome;
use leveldb::iterator_outcome;
use leveldb::open_outcome;
use leveldb::operation_outcome;

#[test]
fn operation_outcome_maps_error_bytes() {
    assert!(operation_outcome(None).is_ok());
    let err = operation_outcome(Some(b"io error".to_vec())).unwrap_err();
    assert!(err.is_operation_failure());
    assert_eq!(err.message(), &b"io error".to_vec());
}

#[test]
fn get_outcome_distinguishes_absent_from_failed() {
    assert_eq!(get_outcome(None, None).unwrap(), None);
    assert_eq!(get_outcome(None, Some(b"v".to_vec())).unwrap(), Some(b"v".to_vec()));
    let err = get_outcome(Some(b"corrupt block".to_vec()), Some(b"v".to_vec())).unwrap_err();
    assert!(err.is_operation_failure());
    assert_eq!(err.message(), &b"corrupt block".to_vec());
}

#[test]
fn open_outcome_reports_failure_without_handle() {
    assert!(open_outcome(true, None).is_ok());
    let err = open_outcome(false, Some(b"lock held".to_vec())).unwrap_err();
    assert!(err.is_open_failure());
    assert_eq!(err.message(), &b"lock held".to_vec());
    let err = open_outcome(false, None).unwrap_err();
    assert!(err.is_open_failure());
    assert!(err.message().is_empty());
}

#[test]
fn iterator_outcome_wraps_cursor_errors() {
    assert!(iterator_outcome(None).is_none());
    let err = iterator_outcome(Some(b"stale cursor".to_vec())).unwrap();
    assert!(err.is_iterator_failure());
    assert_eq!(err.message(), &b"stale cursor".to_vec());
}
