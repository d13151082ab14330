use asterfiles::errors::{ErrorKind, IoError};
use asterfiles::windows::atomic_file;
use asterfiles::windows::atomic_file::{
    clean_up_after_error, stage_error, SearchStep, Stage, TemporarySearch, WriteStep,
};
use asterfiles::windows::copy_file::{
    is_retryable_network_error, win32_code_of, AttemptFailure, CopyFileErrorKind, CopyRun,
    CopyStep, ProgressStep, BASE_FLAGS, COMPRESSED_TRAFFIC, PROGRESS_CANCEL, PROGRESS_CONTINUE,
    PROGRESS_PAUSE, RESUME_FROM_PAUSE,
};
use asterfiles::windows::path_relation::{
    ancestor_decides, ancestors, check_cancel, destination_is_within_source, identities_equal,
    locate_step, AncestorProbe, FileIdentity, LocateStep, RelationError,
};
use asterfiles::winpath::{
    extension_of, file_name_of, file_stem_of, join, parent_of, path_eq, set_extension_of,
    starts_with_path, strip_prefix_of,
};
use windows_sys::Win32::Foundation;
use windows_sys::Win32::Storage::FileSystem;

fn wide(text: &str) -> Vec<u16> {
    text.encode_utf16().collect()
}

fn failure(hresult: u32) -> Option<AttemptFailure> {
    Some(AttemptFailure { hresult, message: "lost".into() })
}

const LOST: u32 = 0x8007_0040;
const PAUSED: u32 = 0x8007_0bea;

#[test]
fn paths_have_parents_names_and_extensions() {
    assert_eq!(parent_of(&wide(r"C:\a\b.txt")), Some(wide(r"C:\a")));
    assert_eq!(parent_of(&wide(r"C:\")), None);
    assert_eq!(file_name_of(&wide(r"C:\a\b.txt")), Some(wide("b.txt")));
    assert_eq!(file_stem_of(&wide(r"C:\a\b.tar.gz")), Some(wide("b.tar")));
    assert_eq!(extension_of(&wide(r"C:\a\b.tar.gz")), Some(wide("gz")));
    assert_eq!(extension_of(&wide(r"C:\a\.hidden")), None);
    assert_eq!(set_extension_of(&wide(r"C:\a\b.txt"), &wide("md")), wide(r"C:\a\b.md"));
}

#[test]
fn paths_are_joined_and_compared() {
    assert_eq!(join(&wide(r"C:\a"), &wide("b")), wide(r"C:\a\b"));
    assert_eq!(join(&wide(r"C:\a\"), &wide("b")), wide(r"C:\a\b"));
    assert_eq!(join(&wide(r"C:\a"), &wide(r"D:\b")), wide(r"D:\b"));
    assert!(path_eq(&wide(r"C:\a\\b"), &wide(r"C:/a/b/")));
    assert!(!path_eq(&wide(r"C:\a"), &wide(r"C:\A")));
    assert!(starts_with_path(&wide(r"C:\a\b"), &wide(r"C:\a")));
    assert!(!starts_with_path(&wide(r"C:\ab"), &wide(r"C:\a")));
    assert_eq!(strip_prefix_of(&wide(r"C:\a\b\c"), &wide(r"C:\a")), Some(wide(r"b\c")));
}

#[test]
fn a_copy_reports_only_what_is_new() {
    let mut run = CopyRun::new(&wide(r"C:\a"), &wide(r"D:\a"));
    assert_eq!(run.begin_attempt(None).unwrap(), BASE_FLAGS);
    assert_eq!(run.progress(false, Some(10)), ProgressStep::Report(10));
    assert_eq!(run.progress(false, Some(10)), ProgressStep::Answer);
    assert_eq!(run.progress(false, Some(25)), ProgressStep::Report(15));
    assert_eq!(run.progress(false, None), ProgressStep::Answer);
    assert_eq!(run.answer(false, false), PROGRESS_CONTINUE);
    assert_eq!(run.progress(true, Some(90)), ProgressStep::Cancel);
    match run.attempt_ended(&[], &[], None, None) {
        CopyStep::Done(total) => assert_eq!(total, 25),
        other => panic!("{other:?}"),
    }
}

#[test]
fn a_paused_copy_resumes_the_same_destination() {
    let mut run = CopyRun::new(&wide(r"\\s\x\a"), &wide(r"D:\a"));
    assert_eq!(run.begin_attempt(None).unwrap(), BASE_FLAGS | COMPRESSED_TRAFFIC);
    assert_eq!(run.answer(false, true), PROGRESS_PAUSE);
    assert!(matches!(
        run.attempt_ended(&[], &[], failure(PAUSED), None),
        CopyStep::WaitWhilePaused
    ));
    run.resumed(None).unwrap();
    assert_eq!(
        run.begin_attempt(None).unwrap(),
        BASE_FLAGS | COMPRESSED_TRAFFIC | RESUME_FROM_PAUSE
    );
    assert_eq!(run.resumed(Some("aborted".into())).unwrap_err().kind, CopyFileErrorKind::Cancelled);
}

#[test]
fn a_cancelled_copy_says_so() {
    let mut run = CopyRun::new(&wide(r"C:\a"), &wide(r"D:\a"));
    assert_eq!(run.begin_attempt(Some("aborted".into())).unwrap_err().kind, CopyFileErrorKind::Cancelled);
    match run.attempt_ended(&[], &[], failure(LOST), Some("aborted".into())) {
        CopyStep::Fail(error) => {
            assert_eq!(error.kind, CopyFileErrorKind::Cancelled);
            assert_eq!(error.error.code, Some(Foundation::ERROR_REQUEST_ABORTED as i32));
            assert_eq!(error.error.message, "aborted");
        }
        other => panic!("{other:?}"),
    }
}

#[test]
fn a_failed_report_ends_the_copy() {
    let mut run = CopyRun::new(&wide(r"C:\a"), &wide(r"D:\a"));
    assert_eq!(run.answer(true, true), PROGRESS_CANCEL);
    match run.attempt_ended(&[], &[], None, None) {
        CopyStep::Fail(error) => {
            assert_eq!(error.error.message, "CopyFile2 progress callback failed")
        }
        other => panic!("{other:?}"),
    }
}

#[test]
fn network_copies_are_repeated_with_growing_delays_and_then_fail() {
    let mut run = CopyRun::new(&wide(r"\\s\x\a"), &wide(r"D:\a"));
    let mut delays = Vec::new();
    let message = loop {
        match run.attempt_ended(&wide("from"), &wide("to"), failure(LOST), None) {
            CopyStep::RetryAfter(delay) => delays.push(delay),
            CopyStep::Fail(error) => break error.error.message,
            other => panic!("{other:?}"),
        }
    };
    assert!(!delays.is_empty());
    for (index, delay) in delays.iter().enumerate() {
        assert_eq!(*delay, delays[0] * (index as u64 + 1));
    }
    assert_eq!(message, "CopyFile2 failed (Win32 64) from from to to: lost");
}

#[test]
fn local_copies_and_other_errors_are_not_repeated() {
    let mut local = CopyRun::new(&wide(r"C:\a"), &wide(r"D:\a"));
    assert!(matches!(local.attempt_ended(&[], &[], failure(LOST), None), CopyStep::Fail(_)));
    let mut remote = CopyRun::new(&wide(r"\\s\x\a"), &wide(r"D:\a"));
    match remote.attempt_ended(&wide("a"), &wide("b"), failure(0x8000_4005), None) {
        CopyStep::Fail(error) => assert_eq!(
            error.error.message,
            "CopyFile2 failed (HRESULT 0x80004005) from a to b: lost"
        ),
        other => panic!("{other:?}"),
    }
}

#[test]
fn the_numbers_of_the_copy_function_are_the_systems() {
    assert_eq!(win32_code_of(LOST), Some(Foundation::ERROR_NETNAME_DELETED));
    assert_eq!(win32_code_of(PAUSED), Some(Foundation::ERROR_REQUEST_PAUSED));
    assert_eq!(win32_code_of(0x8000_4005), None);
    for code in [
        Foundation::ERROR_BAD_NETPATH,
        Foundation::ERROR_BAD_NET_NAME,
        Foundation::ERROR_CONNECTION_UNAVAIL,
        Foundation::ERROR_HOST_UNREACHABLE,
        Foundation::ERROR_NETNAME_DELETED,
        Foundation::ERROR_NETWORK_UNREACHABLE,
        Foundation::ERROR_NO_NETWORK,
        Foundation::ERROR_SEM_TIMEOUT,
        Foundation::ERROR_UNEXP_NET_ERR,
    ] {
        assert!(is_retryable_network_error(code));
    }
    assert!(!is_retryable_network_error(Foundation::ERROR_ACCESS_DENIED));
    assert_eq!(
        BASE_FLAGS,
        FileSystem::COPY_FILE_FAIL_IF_EXISTS | FileSystem::COPY_FILE_ENABLE_SPARSE_COPY
    );
    assert_eq!(
        COMPRESSED_TRAFFIC,
        FileSystem::COPY_FILE_REQUEST_COMPRESSED_TRAFFIC
    );
    assert_eq!(RESUME_FROM_PAUSE, FileSystem::COPY_FILE_RESUME_FROM_PAUSE);
    assert_eq!(PROGRESS_CONTINUE as i32, FileSystem::COPYFILE2_PROGRESS_CONTINUE);
    assert_eq!(PROGRESS_CANCEL as i32, FileSystem::COPYFILE2_PROGRESS_CANCEL);
    assert_eq!(PROGRESS_PAUSE as i32, FileSystem::COPYFILE2_PROGRESS_PAUSE);
}

fn identity(volume: u64, last: u8) -> FileIdentity {
    let mut file = [0; 16];
    file[15] = last;
    FileIdentity { volume, file }
}

#[test]
fn a_destination_below_its_source_is_recognised() {
    let source = identity(1, 2);
    assert!(identities_equal(&source, &identity(1, 2)));
    assert!(!identities_equal(&source, &identity(2, 2)));
    assert!(!identities_equal(&source, &identity(1, 3)));
    let chain = ancestors(&wide(r"C:\a\b"));
    assert_eq!(chain, vec![wide(r"C:\a\b"), wide(r"C:\a"), wide(r"C:\")]);
    let other = || AncestorProbe::Identity(identity(1, 9));
    let found = || AncestorProbe::Identity(identity(1, 2));
    let within = |seen: Vec<AncestorProbe>| destination_is_within_source(&source, &chain, seen, false);
    assert!(within(vec![other(), found()]).unwrap());
    assert!(within(vec![other(), other(), found()]).unwrap());
    assert!(!within(vec![other(), other(), other()]).unwrap());
}

#[test]
fn the_first_look_that_decides_ends_the_walk() {
    let source = identity(1, 2);
    let chain = ancestors(&wide(r"C:\a\b"));
    let other = || AncestorProbe::Identity(identity(1, 9));
    let found = || AncestorProbe::Identity(identity(1, 2));
    let denied = || AncestorProbe::Failed(IoError::from_kind(ErrorKind::PermissionDenied));
    let unwanted = || AncestorProbe::Cancelled;
    assert!(!ancestor_decides(&source, &other()));
    for probe in [found(), denied(), unwanted()] {
        assert!(ancestor_decides(&source, &probe));
    }
    let walk = |seen: Vec<AncestorProbe>, cancelled_at_end: bool| {
        destination_is_within_source(&source, &chain, seen, cancelled_at_end)
    };
    assert!(walk(vec![found(), denied(), unwanted()], true).unwrap());
    match walk(vec![other(), denied(), found()], false) {
        Err(RelationError::Io { path, error }) => {
            assert_eq!((path, error.kind), (wide(r"C:\a"), ErrorKind::PermissionDenied))
        }
        other => panic!("{other:?}"),
    }
    let before_the_look = walk(vec![other(), unwanted()], false);
    assert!(matches!(before_the_look, Err(RelationError::Cancelled)));
    let at_the_end = walk(vec![other(), other(), other()], true);
    assert!(matches!(at_the_end, Err(RelationError::Cancelled)));
}

#[test]
fn a_missing_destination_is_looked_for_above() {
    let missing = || Some(IoError::from_kind(ErrorKind::NotFound));
    assert!(matches!(locate_step(&wide(r"C:\a"), None), LocateStep::Resolve));
    match locate_step(&wide(r"C:\a\b"), missing()) {
        LocateStep::Climb(next) => assert_eq!(next, wide(r"C:\a")),
        other => panic!("{other:?}"),
    }
    assert!(matches!(locate_step(&wide(r"C:\"), missing()), LocateStep::Fail(_)));
    let denied = Some(IoError::from_kind(ErrorKind::PermissionDenied));
    assert!(matches!(locate_step(&wide(r"C:\a"), denied), LocateStep::Fail(_)));
    assert!(check_cancel(false).is_ok());
    assert!(matches!(check_cancel(true), Err(RelationError::Cancelled)));
}

#[test]
fn temporary_names_stand_beside_the_destination() {
    let search = TemporarySearch::start(&wide(r"C:\s\session.json"), "shown").unwrap();
    assert_eq!(
        search.candidate(12, 3),
        wide(r"C:\s\.session.json.asterfiles-writing-12-3")
    );
    let error = TemporarySearch::start(&wide(r"C:\s\.."), "shown").unwrap_err();
    assert_eq!(error.kind, ErrorKind::InvalidInput);
    assert_eq!(
        error.message,
        "atomic session temporary-create failed for shown: destination has no file name"
    );
}

#[test]
fn taken_temporary_names_are_skipped_until_the_search_ends() {
    let mut search = TemporarySearch::start(&wide(r"C:\s\f"), "shown").unwrap();
    let taken = || IoError::from_kind(ErrorKind::AlreadyExists);
    let mut tries = 1;
    let error = loop {
        match search.refused("shown", "candidate", taken()) {
            SearchStep::Again => tries += 1,
            SearchStep::Fail(error) => break error,
        }
    };
    assert!(tries > 1);
    assert!(error.message.ends_with("could not allocate a unique temporary file"));
    let mut other = TemporarySearch::start(&wide(r"C:\s\f"), "shown").unwrap();
    let denied = IoError::with_code(ErrorKind::PermissionDenied, 5, "no".into());
    match other.refused("shown", "candidate", denied) {
        SearchStep::Fail(error) => {
            assert_eq!(error.raw_os_error, Some(5));
            assert_eq!(
                error.message,
                "atomic session temporary-create failed for candidate: no"
            );
        }
        other => panic!("{other:?}"),
    }
}

#[test]
fn a_failed_clean_up_is_reported_with_the_failure() {
    let full = || {
        stage_error(
            Stage::TemporaryWrite,
            "file",
            IoError::with_code(ErrorKind::Other, 112, "full".into()),
        )
    };
    assert_eq!(full().stage.name(), "temporary-write");
    let gone = IoError::from_kind(ErrorKind::NotFound);
    assert_eq!(
        clean_up_after_error(full(), "temp", Some(gone)).message,
        "atomic session temporary-write failed for file: full"
    );
    let held = IoError::with_code(ErrorKind::PermissionDenied, 32, "held".into());
    let reported = clean_up_after_error(full(), "temp", Some(held));
    assert_eq!(
        reported.message,
        "atomic session temporary-write failed for file: full; temporary cleanup failed for \
         temp: held"
    );
    assert_eq!((reported.raw_os_error, reported.cleanup_raw_os_error), (Some(112), Some(32)));
}

#[test]
fn the_destination_is_replaced_only_after_the_bytes_are_on_the_disk() {
    assert!(matches!(atomic_file::write(Stage::TemporaryCreate, None, "f", "t"), WriteStep::Write));
    assert!(matches!(atomic_file::write(Stage::TemporaryWrite, None, "f", "t"), WriteStep::Sync));
    assert!(matches!(atomic_file::write(Stage::TemporarySync, None, "f", "t"), WriteStep::Replace));
    assert!(matches!(atomic_file::write(Stage::Replace, None, "f", "t"), WriteStep::Done));
    for (stage, expected) in [
        (Stage::TemporarySync, "atomic session temporary-sync failed for t: x"),
        (Stage::Replace, "atomic session replace failed for f: x"),
    ] {
        match atomic_file::write(stage, Some(IoError::new(ErrorKind::Other, "x")), "f", "t") {
            WriteStep::CleanUp(error) => assert_eq!(error.message, expected),
            other => panic!("{other:?}"),
        }
    }
}

#[test]
fn a_bare_kind_is_shown_as_the_standard_library_shows_it() {
    for (kind, shown) in [
        (ErrorKind::NotFound, std::io::ErrorKind::NotFound),
        (ErrorKind::PermissionDenied, std::io::ErrorKind::PermissionDenied),
        (ErrorKind::ConnectionRefused, std::io::ErrorKind::ConnectionRefused),
        (ErrorKind::ConnectionReset, std::io::ErrorKind::ConnectionReset),
        (ErrorKind::ConnectionAborted, std::io::ErrorKind::ConnectionAborted),
        (ErrorKind::NotConnected, std::io::ErrorKind::NotConnected),
        (ErrorKind::NetworkDown, std::io::ErrorKind::NetworkDown),
        (ErrorKind::NetworkUnreachable, std::io::ErrorKind::NetworkUnreachable),
        (ErrorKind::HostUnreachable, std::io::ErrorKind::HostUnreachable),
        (ErrorKind::AlreadyExists, std::io::ErrorKind::AlreadyExists),
        (ErrorKind::InvalidInput, std::io::ErrorKind::InvalidInput),
        (ErrorKind::InvalidData, std::io::ErrorKind::InvalidData),
        (ErrorKind::TimedOut, std::io::ErrorKind::TimedOut),
        (ErrorKind::Interrupted, std::io::ErrorKind::Interrupted),
        (ErrorKind::Unsupported, std::io::ErrorKind::Unsupported),
        (ErrorKind::UnexpectedEof, std::io::ErrorKind::UnexpectedEof),
        (ErrorKind::WriteZero, std::io::ErrorKind::WriteZero),
        (ErrorKind::BrokenPipe, std::io::ErrorKind::BrokenPipe),
        (ErrorKind::Other, std::io::ErrorKind::Other),
    ] {
        assert_eq!(IoError::from_kind(kind).message, std::io::Error::from(shown).to_string());
    }
}
