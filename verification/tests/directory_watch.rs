use asterfiles::errors::{ErrorKind, IoError};
use asterfiles::windows::directory_watch::{
    absolute_changes, parse_notifications, trailing_event, watch_path, watch_step, ChangeCoalescer, DirectoryChange,
    DirectoryWatchEvent, RawNotification, WatchOutcome, FILE_ACTION_ADDED, FILE_ACTION_MODIFIED,
    FILE_ACTION_REMOVED, FILE_ACTION_RENAMED_NEW_NAME, FILE_ACTION_RENAMED_OLD_NAME,
};

fn wide(text: &str) -> Vec<u16> {
    text.encode_utf16().collect()
}

fn raw(action: u32, path: &str) -> RawNotification {
    RawNotification { action, relative_path: wide(path) }
}

fn record(action: u32, name: &str, has_next: bool) -> Vec<u8> {
    let wide = name.encode_utf16().collect::<Vec<_>>();
    let raw_len = 12 + wide.len() * 2;
    let aligned_len = (raw_len + 3) & !3;
    let mut record = vec![0u8; aligned_len];
    let next = if has_next { aligned_len as u32 } else { 0 };
    record[0..4].copy_from_slice(&next.to_le_bytes());
    record[4..8].copy_from_slice(&action.to_le_bytes());
    record[8..12].copy_from_slice(&((wide.len() * 2) as u32).to_le_bytes());
    for (index, unit) in wide.iter().enumerate() {
        let offset = 12 + index * 2;
        record[offset..offset + 2].copy_from_slice(&unit.to_le_bytes());
    }
    record
}

#[test]
fn pairs_rename_records_in_one_native_delivery() {
    let mut coalescer = ChangeCoalescer::new();
    coalescer.push(raw(FILE_ACTION_RENAMED_OLD_NAME, "old.txt"));
    coalescer.push(raw(FILE_ACTION_RENAMED_NEW_NAME, "new.txt"));
    assert_eq!(
        coalescer.take_changes(),
        vec![DirectoryChange::Renamed { from: wide("old.txt"), to: wide("new.txt") }]
    );
}

#[test]
fn flushes_unpaired_rename_at_delivery_boundary() {
    let mut coalescer = ChangeCoalescer::new();
    coalescer.push(raw(FILE_ACTION_RENAMED_OLD_NAME, "gone.txt"));
    coalescer.flush_pending_rename();
    assert_eq!(
        coalescer.take_changes(),
        vec![DirectoryChange::Removed(wide("gone.txt"))]
    );
}

#[test]
fn reports_unpaired_rename_as_remove() {
    let mut coalescer = ChangeCoalescer::new();
    coalescer.push(raw(FILE_ACTION_RENAMED_OLD_NAME, "gone.txt"));
    coalescer.push(raw(FILE_ACTION_ADDED, "other.txt"));
    assert_eq!(
        coalescer.take_changes(),
        vec![
            DirectoryChange::Removed(wide("gone.txt")),
            DirectoryChange::Added(wide("other.txt")),
        ]
    );
}

#[test]
fn deduplicates_identical_changes_within_delivery() {
    let mut coalescer = ChangeCoalescer::new();
    coalescer.push(raw(FILE_ACTION_MODIFIED, "item.txt"));
    coalescer.push(raw(FILE_ACTION_MODIFIED, "item.txt"));
    assert_eq!(
        coalescer.take_changes(),
        vec![DirectoryChange::Modified(wide("item.txt"))]
    );
}

#[test]
fn converts_relative_notifications_to_original_root_paths() {
    let root = wide(r"C:\data");
    let changes = absolute_changes(
        &root,
        &[DirectoryChange::Renamed { from: wide("before"), to: wide("nested\\after") }],
    );
    assert_eq!(
        changes,
        vec![DirectoryChange::Renamed {
            from: wide(r"C:\data\before"),
            to: wide(r"C:\data\nested\after"),
        }]
    );
}

#[test]
fn parses_multiple_native_records() {
    let first = record(FILE_ACTION_ADDED, "one.txt", true);
    let second = record(FILE_ACTION_REMOVED, "two.txt", false);
    let mut buffer = first;
    buffer.extend(second);
    let parsed = parse_notifications(&buffer).expect("records should parse");
    assert_eq!(
        parsed,
        vec![raw(FILE_ACTION_ADDED, "one.txt"), raw(FILE_ACTION_REMOVED, "two.txt")]
    );
}

#[test]
fn broken_records_are_refused() {
    let whole = record(FILE_ACTION_ADDED, "one.txt", false);
    for (buffer, message) in [
        (whole[..8].to_vec(), "directory change record header is truncated"),
        (whole[..20].to_vec(), "directory change record name is truncated"),
    ] {
        let error = parse_notifications(&buffer).unwrap_err();
        assert_eq!(error.kind, ErrorKind::InvalidData);
        assert_eq!(error.message, message);
    }
}

#[test]
fn a_delivery_becomes_changes_below_the_root() {
    let mut coalescer = ChangeCoalescer::new();
    let root = wide(r"C:\data");
    let bytes = record(FILE_ACTION_ADDED, "one.txt", false);
    let step = watch_step(&mut coalescer, &root, WatchOutcome::Delivered(bytes), false);
    assert!(step.read_on);
    assert_eq!(
        step.event,
        Some(DirectoryWatchEvent::Changes {
            root: root.clone(),
            changes: vec![DirectoryChange::Added(wide(r"C:\data\one.txt"))],
        })
    );
    let step = watch_step(&mut coalescer, &root, WatchOutcome::Delivered(vec![]), false);
    assert_eq!(step.event, Some(DirectoryWatchEvent::Overflow { root: root.clone() }));
    assert!(step.read_on);
}

#[test]
fn errors_end_the_watch_unless_too_much_changed() {
    let root = wide(r"C:\data");
    let mut coalescer = ChangeCoalescer::new();
    let overflow = IoError::with_code(ErrorKind::Other, 1022, "full".into());
    let step = watch_step(&mut coalescer, &root, WatchOutcome::Failed(overflow), false);
    assert_eq!(step.event, Some(DirectoryWatchEvent::Overflow { root: root.clone() }));
    assert!(step.read_on);
    let aborted = IoError::with_code(ErrorKind::Other, 995, "aborted".into());
    let step = watch_step(&mut coalescer, &root, WatchOutcome::Failed(aborted), false);
    assert_eq!(step.event, None);
    assert!(!step.read_on);
    let lost = IoError::with_code(ErrorKind::Other, 64, "lost".into());
    let step = watch_step(&mut coalescer, &root, WatchOutcome::NotStarted(lost), false);
    assert!(!step.read_on);
    assert!(matches!(step.event, Some(DirectoryWatchEvent::Error { .. })));
}

#[test]
fn watch_numbers_are_those_of_the_system() {
    assert_eq!(FILE_ACTION_ADDED, windows_sys::Win32::Storage::FileSystem::FILE_ACTION_ADDED);
    assert_eq!(
        FILE_ACTION_RENAMED_NEW_NAME,
        windows_sys::Win32::Storage::FileSystem::FILE_ACTION_RENAMED_NEW_NAME
    );
    assert_eq!(
        asterfiles::windows::directory_watch::ERROR_NOTIFY_ENUM_DIR as u32,
        windows_sys::Win32::Foundation::ERROR_NOTIFY_ENUM_DIR
    );
    assert_eq!(
        asterfiles::windows::directory_watch::ERROR_OPERATION_ABORTED as u32,
        windows_sys::Win32::Foundation::ERROR_OPERATION_ABORTED
    );
}

#[test]
fn what_is_left_is_reported_unless_the_watch_was_cancelled() {
    let pending = || {
        let mut coalescer = ChangeCoalescer::new();
        coalescer.push(raw(FILE_ACTION_RENAMED_OLD_NAME, "old.txt"));
        coalescer
    };
    assert_eq!(
        trailing_event(pending(), &wide(r"C:\Work"), false),
        Some(DirectoryWatchEvent::Changes {
            root: wide(r"C:\Work"),
            changes: vec![DirectoryChange::Removed(wide(r"C:\Work\old.txt"))],
        })
    );
    assert_eq!(trailing_event(pending(), &wide(r"C:\Work"), true), None);
    let mut cleared = pending();
    cleared.clear();
    assert_eq!(trailing_event(cleared, &wide(r"C:\Work"), false), None);
}

#[test]
fn watched_paths_end_in_a_zero_and_hold_no_other() {
    assert_eq!(watch_path(&wide("C:")).unwrap(), vec![67, 58, 0]);
    assert_eq!(watch_path(&[]).unwrap_err().message, "directory watch path is empty");
    assert_eq!(
        watch_path(&[67, 0, 58]).unwrap_err().message,
        "directory watch path contains a null character"
    );
}
