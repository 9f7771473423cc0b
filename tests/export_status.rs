use dirsync::export::{ExportTaskStatus, Tag};

#[test]
fn status_codes_are_read() {
    assert_eq!(ExportTaskStatus::try_convert("CANCELLED"), Some(ExportTaskStatus::Cancelled));
    assert_eq!(ExportTaskStatus::try_convert("COMPLETED"), Some(ExportTaskStatus::Completed));
    assert_eq!(ExportTaskStatus::try_convert("FAILED"), Some(ExportTaskStatus::Failed));
    assert_eq!(ExportTaskStatus::try_convert("PENDING"), Some(ExportTaskStatus::Pending));
    assert_eq!(ExportTaskStatus::try_convert("PENDING_CANCEL"), Some(ExportTaskStatus::PendingCancel));
    assert_eq!(ExportTaskStatus::try_convert("RUNNING"), Some(ExportTaskStatus::Running));
}

#[test]
fn unknown_status_codes_are_refused() {
    assert_eq!(ExportTaskStatus::try_convert(""), None);
    assert_eq!(ExportTaskStatus::try_convert("running"), None);
    assert_eq!(ExportTaskStatus::try_convert("PENDING_"), None);
}

#[test]
fn tag_holds_name_and_value() {
    let t = Tag { name: "team".to_string(), value: "ops".to_string() };
    assert_eq!(t.clone(), t);
}
