use kvs::handler::{TaskHandler, TaskOrder};
use kvs::{IoErrorKind, KvsError};

#[test]
fn only_values_that_do_not_read_as_tasks_are_passed_over() {
    let handler = TaskHandler::new();
    assert!(handler.skips(&KvsError::Serialize));
    assert!(!handler.skips(&KvsError::CorruptData));
    assert!(!handler.skips(&KvsError::NotFound));
    assert!(!handler.skips(&KvsError::Io { kind: IoErrorKind::Other }));
    assert!(!handler.skips(&KvsError::Io { kind: IoErrorKind::UnexpectedEof }));
    assert!(!handler.skips(&KvsError::InvalidKey));
    assert!(!handler.skips(&KvsError::InvalidState(0)));
    assert!(!handler.skips(&KvsError::Unknown));
}

#[test]
fn a_query_keeps_the_titles_it_stands_in() {
    let handler = TaskHandler::new();
    assert!(handler.matches("Write the Report", "report"));
    assert!(handler.matches("Write the Report", "THE"));
    assert!(handler.matches("Write the Report", ""));
    assert!(!handler.matches("Write the Report", "reports"));
    assert!(!handler.matches("", "x"));
}

#[test]
fn the_order_of_a_listing() {
    let handler = TaskHandler::new();
    assert_eq!(handler.order(None, None), TaskOrder::Stored);
    assert_eq!(handler.order(None, Some("false")), TaskOrder::Stored);
    assert_eq!(handler.order(Some("created_at"), None), TaskOrder::CreatedAscending);
    assert_eq!(handler.order(Some("created_at"), Some("true")), TaskOrder::CreatedAscending);
    assert_eq!(handler.order(Some("created_at"), Some("false")), TaskOrder::CreatedDescending);
    assert_eq!(handler.order(Some("created_at"), Some("False")), TaskOrder::CreatedAscending);
    assert_eq!(handler.order(Some("created_at"), Some("0")), TaskOrder::CreatedAscending);
    assert_eq!(handler.order(Some("created_at"), Some("")), TaskOrder::CreatedAscending);
    assert_eq!(handler.order(Some("title"), Some("false")), TaskOrder::CreatedAscending);
    assert_eq!(handler.order(Some(""), None), TaskOrder::CreatedAscending);
}

#[test]
fn the_task_that_a_path_names() {
    let handler = TaskHandler::new();
    assert_eq!(handler.delete_target("/tasks/0123abcd"), Some("0123abcd"));
    assert_eq!(handler.delete_target("/tasks/0123abcd/more"), Some("0123abcd"));
    assert_eq!(handler.delete_target("/tasks/"), Some(""));
    assert_eq!(handler.delete_target("/tasks"), None);
    assert_eq!(handler.delete_target(""), None);
}

#[test]
fn exit_codes() {
    assert_eq!(KvsError::NotFound.exit_code(), 2);
    assert_eq!(KvsError::CorruptData.exit_code(), 1);
    assert_eq!(KvsError::Serialize.exit_code(), 1);
    assert_eq!(KvsError::Io { kind: IoErrorKind::Other }.exit_code(), 1);
    assert_eq!(KvsError::Unknown.exit_code(), 1);
}
