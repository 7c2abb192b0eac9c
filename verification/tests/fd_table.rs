use libax::fd_table::{FcntlOutcome, FdError, FdTable, AX_FILE_LIMIT, F_DUPFD, F_DUPFD_CLOEXEC, F_SETFD, F_SETFL, O_CLOEXEC};

const STDIN: u64 = 100;
const STDOUT: u64 = 101;

#[test]
fn stdio_table_names_stdin_and_stdout() {
    let t = FdTable::with_stdio(STDIN, STDOUT);
    assert_eq!(t.get_file_like(0), Ok(STDIN));
    assert_eq!(t.get_file_like(1), Ok(STDOUT));
    assert_eq!(t.get_file_like(2), Ok(STDOUT));
    assert_eq!(t.get_file_like(3), Err(FdError::BadFd));
    assert_eq!(t.get_file_like(-1), Err(FdError::BadFd));
    assert_eq!(t.get_file_like(i32::MIN), Err(FdError::BadFd));
    assert_eq!(t.get_file_like(5000), Err(FdError::BadFd));
}

#[test]
fn add_gives_lowest_free_descriptor() {
    let mut t = FdTable::with_stdio(STDIN, STDOUT);
    assert_eq!(t.add_file_like(7), Ok(3));
    assert_eq!(t.add_file_like(8), Ok(4));
    assert_eq!(t.get_file_like(3), Ok(7));
    assert_eq!(t.get_file_like(4), Ok(8));
}

#[test]
fn closed_descriptor_is_reused() {
    let mut t = FdTable::with_stdio(STDIN, STDOUT);
    assert_eq!(t.add_file_like(7), Ok(3));
    assert_eq!(t.add_file_like(8), Ok(4));
    assert_eq!(t.close_file_like(3), Ok(7));
    assert_eq!(t.get_file_like(3), Err(FdError::BadFd));
    assert_eq!(t.get_file_like(4), Ok(8));
    assert_eq!(t.add_file_like(9), Ok(3));
    assert_eq!(t.get_file_like(3), Ok(9));
}

#[test]
fn closing_unknown_descriptor_fails() {
    let mut t = FdTable::with_stdio(STDIN, STDOUT);
    assert_eq!(t.close_file_like(10), Err(FdError::BadFd));
    assert_eq!(t.close_file_like(-3), Err(FdError::BadFd));
    assert_eq!(t.get_file_like(0), Ok(STDIN));
}

#[test]
fn full_table_refuses_new_descriptors() {
    let mut t = FdTable::new();
    for i in 0..AX_FILE_LIMIT {
        assert_eq!(t.add_file_like(i as u64), Ok(i as i32));
    }
    assert_eq!(t.add_file_like(5), Err(FdError::TooManyFiles));
    assert_eq!(t.dup_fd(0), Err(FdError::TooManyFiles));
    assert_eq!(t.close_file_like(500), Ok(500));
    assert_eq!(t.add_file_like(77), Ok(500));
}

#[test]
fn dup_shares_the_object() {
    let mut t = FdTable::with_stdio(STDIN, STDOUT);
    assert_eq!(t.dup_fd(0), Ok(3));
    assert_eq!(t.get_file_like(3), Ok(STDIN));
    assert_eq!(t.dup_fd(9), Err(FdError::BadFd));
}

#[test]
fn close_leaves_stdin_and_stdout_open() {
    let mut t = FdTable::with_stdio(STDIN, STDOUT);
    assert_eq!(t.close_descriptor(0), Ok(None));
    assert_eq!(t.close_descriptor(1), Ok(None));
    assert_eq!(t.get_file_like(0), Ok(STDIN));
    assert_eq!(t.get_file_like(1), Ok(STDOUT));
    assert_eq!(t.close_descriptor(2), Ok(None));
    assert_eq!(t.get_file_like(2), Ok(STDOUT));
    assert_eq!(t.add_file_like(9), Ok(3));
    assert_eq!(t.close_descriptor(3), Ok(Some(9)));
    assert_eq!(t.get_file_like(3), Err(FdError::BadFd));
    assert_eq!(t.close_descriptor(3), Err(FdError::BadFd));
    assert_eq!(t.close_descriptor(-1), Err(FdError::BadFd));
}

#[test]
fn io_target_looks_at_buffer_before_descriptor() {
    let t = FdTable::with_stdio(STDIN, STDOUT);
    assert_eq!(t.io_target(0, true), Err(FdError::BadAddress));
    assert_eq!(t.io_target(99, true), Err(FdError::BadAddress));
    assert_eq!(t.io_target(99, false), Err(FdError::BadFd));
    assert_eq!(t.io_target(1, false), Ok(STDOUT));
}

#[test]
fn dup3_errors() {
    let mut t = FdTable::with_stdio(STDIN, STDOUT);
    assert_eq!(t.dup3(1, 1, 0), Err(FdError::InvalidArgument));
    assert_eq!(t.dup3(1, 1024, 0), Err(FdError::BadFd));
    assert_eq!(t.dup3(1, -5, 0), Err(FdError::BadFd));
    assert_eq!(t.dup3(9, 10, 0), Err(FdError::BadFd));
}

#[test]
fn dup3_replaces_an_open_descriptor() {
    let mut t = FdTable::with_stdio(STDIN, STDOUT);
    assert_eq!(t.dup3(0, 2, 0), Ok(2));
    assert_eq!(t.get_file_like(2), Ok(STDIN));
    assert_eq!(t.get_file_like(1), Ok(STDOUT));
    assert!(t.is_referenced(STDOUT));
    assert_eq!(t.dup3(0, 1, 0), Ok(1));
    assert!(!t.is_referenced(STDOUT));
    assert!(t.is_referenced(STDIN));
}

#[test]
fn dup3_onto_free_descriptor() {
    let mut t = FdTable::with_stdio(STDIN, STDOUT);
    assert_eq!(t.dup3(0, 10, 0), Ok(10));
    assert_eq!(t.get_file_like(10), Ok(STDIN));
    assert_eq!(t.dup3(1, 1023, O_CLOEXEC as i32), Ok(1023));
    assert_eq!(t.get_file_like(1023), Ok(STDOUT));
    assert_eq!(t.get_file_like(11), Err(FdError::BadFd));
    assert_eq!(t.add_file_like(3), Ok(3));
}

#[test]
fn fcntl_duplicates() {
    let mut t = FdTable::with_stdio(STDIN, STDOUT);
    assert!(matches!(t.fcntl(1, F_DUPFD, 0), FcntlOutcome::Done(Ok(3))));
    assert!(matches!(t.fcntl(0, F_DUPFD_CLOEXEC, 0), FcntlOutcome::Done(Ok(4))));
    assert_eq!(t.get_file_like(3), Ok(STDOUT));
    assert_eq!(t.get_file_like(4), Ok(STDIN));
    assert!(matches!(t.fcntl(40, F_DUPFD, 0), FcntlOutcome::Done(Err(FdError::BadFd))));
}

#[test]
fn fcntl_set_status_flags_and_others() {
    let mut t = FdTable::with_stdio(STDIN, STDOUT);
    match t.fcntl(2, F_SETFL, 2048) {
        FcntlOutcome::SetStatusFlags { file, arg } => {
            assert_eq!(file, STDOUT);
            assert_eq!(arg, 2048);
        }
        FcntlOutcome::Done(_) => panic!("expected the flags to be handed over"),
    }
    assert!(matches!(t.fcntl(7, F_SETFL, 1), FcntlOutcome::Done(Err(FdError::BadFd))));
    assert!(matches!(t.fcntl(0, F_SETFD, 1), FcntlOutcome::Done(Ok(0))));
    assert!(matches!(t.fcntl(0, 12345, 1), FcntlOutcome::Done(Ok(0))));
    assert_eq!(t.get_file_like(3), Err(FdError::BadFd));
}
