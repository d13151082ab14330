use asterfiles::errors::{ErrorKind, IoError};
use asterfiles::windows::network::codec::Timestamp;
use asterfiles::windows::network::directory::{
    encode_batch, encode_error, read_batch, Batch, BatchError, RemoteError, MAX_BATCH_BYTES,
    MAX_BATCH_ITEMS,
};
use asterfiles::windows::network::entry::{
    present, DirectoryListing, EntryFields, EntryId, EntryKind, FileEntry, FileVisibility,
    FolderSizeState, FoundEntry, Met, FILE_ATTRIBUTE_HIDDEN, FILE_ATTRIBUTE_SYSTEM,
    MAX_HELPER_ITEMS,
};
use asterfiles::windows::network::helper::{
    read_auth_input, read_auth_result, read_directory_input, read_utf16_path, write_auth_input,
    write_auth_result, write_directory_input, write_utf16_path, AuthInput,
};
use asterfiles::windows::network::mutation::{
    completed_mutation, execute_file_mutation, read_file_mutation_input,
    read_file_mutation_result, write_file_mutation_input, write_file_mutation_result,
    IsolatedFileMutationKind, IsolatedFileMutationResult, MutationInput, MutationPlan,
};
use asterfiles::windows::network::places::{
    display_name, enumerate_network_devices, enumerate_network_locations, enumerate_network_root,
    item_place, network_devices_from_imported_locations, shell_item_info, target_link,
    unc_host_display_name, ImportedItem, ShellItemInfo,
};
use asterfiles::windows::network::process::{
    isolated_connect_network_share, isolated_force_disconnect_network_share,
    isolated_network_devices, isolated_network_root, run_isolated, try_run_child_from_args,
    ChildMode, HelperStep, CREATE_NO_WINDOW, ISOLATED_POLL_MS, ISOLATED_TIMEOUT_MS,
};
use asterfiles::windows::network::results::{
    isolated_directory, read_directory_result, read_result, write_directory_result, write_result,
    HelperItem,
};
use asterfiles::windows::network::stream::{
    cancelled, frame_slot_exists, stream_directory, Added, DirectoryBatcher, DirectoryReceiver,
    ExitReport, StreamEnd, StreamStep, ERROR_FILE_NOT_FOUND, ERROR_PATH_NOT_FOUND,
    INVALID_FILE_ATTRIBUTES,
};
use asterfiles::windows::network::{
    clear_bytes, clear_secret, connect_network_share, connect_request, connection_step,
    credential_outcome, disconnect_network_share, disconnect_outcome, drive_name,
    force_disconnect_network_share, network_auth_error, network_credential, network_drive_to_unc,
    normalize_share_root, record_runtime_event, share_root, ConnectStep, ConnectionStep,
    DriveAnswer, NetworkAuthError, NetworkAuthErrorKind, NetworkLocation, NetworkResult,
    NetworkRootItem, CRED_MAX_CREDENTIAL_BLOB_SIZE,
};
use windows_sys::Win32::Foundation;

fn wide(text: &str) -> Vec<u16> {
    text.encode_utf16().collect()
}

fn no_answer() -> DriveAnswer {
    DriveAnswer::Failed(IoError::from_kind(ErrorKind::Other))
}

fn entry(id: u32) -> FileEntry {
    let name = format!("entry-{id:05}.txt");
    let mut entry = present(
        EntryFields {
            name: wide(&name),
            path: wide(&format!(r"C:\data\{name}")),
            kind: EntryKind::File,
            size_bytes: Some(7),
            modified: None,
            created: None,
        },
        id,
        FolderSizeState::Unknown,
    );
    entry.id = EntryId(id);
    entry
}

#[test]
fn unc_is_unchanged() {
    let path = wide(r"\\server\share\folder");
    assert_eq!(network_drive_to_unc(&path, &no_answer()).unwrap(), path);
}

#[test]
fn share_root_preserves_non_unicode_components_and_normalizes_extended_unc() {
    let server = [b's' as u16, 0xd800];
    let share = [b'x' as u16, 0xdc00];
    let mut extended = wide(r"\\?\UNC\");
    extended.extend_from_slice(&server);
    extended.push(b'\\' as u16);
    extended.extend_from_slice(&share);
    extended.extend_from_slice(&[b'\\' as u16, b'd' as u16]);
    let root = share_root(&extended).unwrap();
    let mut expected = vec![b'\\' as u16, b'\\' as u16];
    expected.extend_from_slice(&server);
    expected.push(b'\\' as u16);
    expected.extend_from_slice(&share);
    assert_eq!(root, expected);
}

#[test]
fn share_root_is_extracted() {
    assert_eq!(share_root(&wide(r"\\server\share\folder")).unwrap(), wide(r"\\server\share"));
}

#[test]
fn a_share_root_is_its_own_root() {
    let root = share_root(&wide(r"\\?\UNC\server\share\a\b")).unwrap();
    assert_eq!(share_root(&root).unwrap(), root);
}

#[test]
fn authentication_error_codes_are_classified() {
    let kind = |code: u32| network_auth_error(code).kind;
    assert_eq!(kind(Foundation::ERROR_ACCESS_DENIED), NetworkAuthErrorKind::AccessDenied);
    assert_eq!(kind(Foundation::ERROR_LOGON_FAILURE), NetworkAuthErrorKind::LogonFailure);
    assert_eq!(
        kind(Foundation::ERROR_SESSION_CREDENTIAL_CONFLICT),
        NetworkAuthErrorKind::CredentialConflict
    );
    assert_eq!(kind(Foundation::ERROR_BAD_NETPATH), NetworkAuthErrorKind::BadPath);
    assert_eq!(kind(Foundation::ERROR_NETWORK_UNREACHABLE), NetworkAuthErrorKind::Unavailable);
    assert_eq!(kind(Foundation::ERROR_EXTENDED_ERROR), NetworkAuthErrorKind::Other);
    assert_eq!(
        network_auth_error(Foundation::ERROR_LOGON_FAILURE).code,
        Foundation::ERROR_LOGON_FAILURE
    );
}

#[test]
fn every_classified_code_is_the_systems() {
    let kind = |code: u32| network_auth_error(code).kind;
    for code in [Foundation::ERROR_BAD_USERNAME, Foundation::ERROR_INVALID_PASSWORD] {
        assert_eq!(kind(code), NetworkAuthErrorKind::LogonFailure);
    }
    for code in [
        Foundation::ERROR_BAD_NET_NAME,
        Foundation::ERROR_NO_NET_OR_BAD_PATH,
        Foundation::ERROR_INVALID_NAME,
        Foundation::ERROR_BAD_DEVICE,
    ] {
        assert_eq!(kind(code), NetworkAuthErrorKind::BadPath);
    }
    for code in [
        Foundation::ERROR_NO_NETWORK,
        Foundation::ERROR_CONNECTION_UNAVAIL,
        Foundation::ERROR_CONNECTION_REFUSED,
        Foundation::ERROR_HOST_UNREACHABLE,
        Foundation::ERROR_PROTOCOL_UNREACHABLE,
        Foundation::ERROR_NOT_CONNECTED,
    ] {
        assert_eq!(kind(code), NetworkAuthErrorKind::Unavailable);
    }
    assert_eq!(
        network_auth_error(Foundation::ERROR_ACCESS_DENIED).to_text(),
        "network authentication failed: AccessDenied (5)"
    );
}

#[test]
fn authentication_normalizes_deep_unc_to_share_root() {
    assert_eq!(
        normalize_share_root(&wide(r"\\server\share\folder\file.txt"), &no_answer()).unwrap(),
        wide(r"\\server\share")
    );
}

#[test]
fn network_root_item_preserves_unc_target() {
    let item = NetworkRootItem {
        label: "共享".to_owned(),
        target: wide(r"\\服务器\共享"),
        is_directory: true,
    };
    assert_eq!(item.target, wide(r"\\服务器\共享"));
}

#[test]
fn non_unc_is_rejected() {
    assert!(share_root(&wide(r"C:\folder")).is_err());
}

#[test]
fn utf16_codec_helpers_are_round_trip_safe_on_windows() {
    let path = wide(r"\\服务器\共享");
    let bytes = write_utf16_path(&path).unwrap();
    assert_eq!(read_utf16_path(&bytes).unwrap(), path);
    assert_eq!(&bytes[..4], [8, 0, 0, 0]);
    assert_eq!(read_utf16_path(&bytes[..5]).unwrap_err().kind, ErrorKind::UnexpectedEof);
    assert_eq!(write_utf16_path(&vec![65; 40_000]).unwrap_err().kind, ErrorKind::InvalidInput);
}

#[test]
fn authentication_input_and_result_codecs_round_trip() {
    let path = wide(r"\\服务器\共享\目录");
    let bytes = write_auth_input(&path, Some(r"域\用户"), Some("秘密"), true).unwrap();
    assert_eq!(
        read_auth_input(&bytes).unwrap(),
        AuthInput {
            path,
            username: Some(r"域\用户".to_owned()),
            password: Some("秘密".to_owned()),
            remember: true,
        }
    );
    let error = network_auth_error(Foundation::ERROR_SESSION_CREDENTIAL_CONFLICT);
    assert_eq!(read_auth_result(&write_auth_result(Err(error))).unwrap(), Err(error));
}

#[test]
fn an_accepted_login_keeps_its_code() {
    let result = NetworkResult { code: 7 };
    assert_eq!(read_auth_result(&write_auth_result(Ok(result))).unwrap(), Ok(result));
    assert!(read_auth_result(&[9]).is_err());
    assert_eq!(
        isolated_connect_network_share(Ok(Ok(result))),
        Ok(result)
    );
    let late = IoError::new(ErrorKind::TimedOut, "late");
    assert!(isolated_force_disconnect_network_share(Err(late)).is_err());
}

#[test]
fn file_mutation_codecs_preserve_raw_paths() {
    let source = vec![b'\\' as u16, b'\\' as u16, b's' as u16, 0xd800];
    let mut destination = source.clone();
    destination.extend(wide(r"\renamed"));
    let bytes = write_file_mutation_input(
        IsolatedFileMutationKind::Rename,
        Some(&source),
        Some(&destination),
    )
    .unwrap();
    assert_eq!(
        read_file_mutation_input(&bytes).unwrap(),
        MutationInput {
            kind: IsolatedFileMutationKind::Rename,
            source: Some(source.clone()),
            destination: Some(destination.clone()),
        }
    );
    let result = IsolatedFileMutationResult {
        completed_path: Some(destination),
        affected_directories: vec![source],
    };
    let bytes = write_file_mutation_result(&result).unwrap();
    assert_eq!(read_file_mutation_result(&bytes).unwrap(), result);
}

#[test]
fn a_renamed_file_affects_the_folder_it_was_in() {
    let input = MutationInput {
        kind: IsolatedFileMutationKind::Rename,
        source: Some(wide(r"\\s\x\a\old")),
        destination: Some(wide(r"\\s\x\a\new")),
    };
    let plan = execute_file_mutation(&input).unwrap();
    assert_eq!(
        plan,
        MutationPlan::Rename { source: wide(r"\\s\x\a\old"), name: wide("new") }
    );
    let done = completed_mutation(&plan, wide(r"\\s\x\a\new"));
    assert_eq!(done.completed_path, Some(wide(r"\\s\x\a\new")));
    assert_eq!(done.affected_directories, vec![wide(r"\\s\x\a")]);
    let missing = MutationInput { source: None, ..input };
    assert_eq!(execute_file_mutation(&missing).unwrap_err().kind, ErrorKind::InvalidInput);
}

#[test]
fn directory_input_preserves_visibility_and_raw_path() {
    let path = vec![b'\\' as u16, b'\\' as u16, 0xd800, b'\\' as u16, b'x' as u16];
    let visibility = FileVisibility { show_hidden: false, show_system: true };
    let bytes = write_directory_input(&path, visibility).unwrap();
    assert_eq!(read_directory_input(&bytes).unwrap(), (path, visibility));
}

#[test]
fn directory_result_preserves_explicit_truncation() {
    let listing = DirectoryListing { entries: Vec::new(), skipped: 0, truncated: true };
    let bytes = write_directory_result(&listing).unwrap();
    let decoded = read_directory_result(&bytes).unwrap();
    assert!(decoded.entries.is_empty());
    assert_eq!(decoded.skipped, 0);
    assert!(decoded.truncated);
}

#[test]
fn directory_result_preserves_non_unicode_identity_and_metadata() {
    let original_name = vec![b'a' as u16, 0xd800];
    let mut entry_path = wide(r"\\server\share\");
    entry_path.extend_from_slice(&original_name);
    let modified = Timestamp { seconds: 42, nanos: 7 };
    let entries = vec![FileEntry {
        id: EntryId(99),
        original_name: original_name.clone(),
        display_name: "ignored presentation".into(),
        path: entry_path.clone(),
        kind: EntryKind::File,
        parent_display: String::new(),
        size_bytes: Some(123),
        folder_size: FolderSizeState::Unknown,
        modified: Some(modified),
        created: None,
    }];
    let listing = DirectoryListing { entries, skipped: 5, truncated: false };
    let decoded = read_directory_result(&write_directory_result(&listing).unwrap()).unwrap();
    assert!(!decoded.truncated);
    assert_eq!(decoded.skipped, 5);
    assert_eq!(decoded.entries.len(), 1);
    let entry = &decoded.entries[0];
    assert_eq!(entry.id, EntryId(1));
    assert_eq!(entry.original_name, original_name);
    assert_eq!(entry.path, entry_path);
    assert_eq!(entry.kind, EntryKind::File);
    assert_eq!(entry.size_bytes, Some(123));
    assert_eq!(entry.modified, Some(modified));
    assert_eq!(entry.created, None);
    assert_eq!(entry.display_name, "a\u{fffd}");
    assert_eq!(entry.parent_display, r"\\server\share\");
}

#[test]
fn imported_device_host_preserves_windows_casing() {
    assert_eq!(
        unc_host_display_name(&wide(r"\\LiuYanghomeNAS\Multimedia")),
        Some("LiuYanghomeNAS".to_owned())
    );
}

#[test]
fn issue_104_completion_transport_failure_does_not_publish_another_terminal_frame() {
    let mut frames = Vec::new();
    frames.push(encode_batch(&[], 0, true).unwrap());
    let error = IoError::from_kind(ErrorKind::BrokenPipe);
    if let StreamEnd::Report(frame) = stream_directory(Some(&error), true) {
        frames.push(frame);
    }
    assert_eq!(stream_directory(Some(&error), true), StreamEnd::Failed);
    assert_eq!(error.kind, ErrorKind::BrokenPipe);
    assert_eq!(frames.len(), 1);
    let Batch { entries, skipped, done } = read_batch(&frames[0]).unwrap();
    assert!(entries.is_empty());
    assert_eq!(skipped, 0);
    assert!(done);
}

fn invalid_kind(result: Result<Batch, BatchError>) -> ErrorKind {
    match result {
        Err(BatchError::Invalid(error)) => error.kind,
        other => panic!("an invalid frame was read as {other:?}"),
    }
}

#[test]
fn issue_104_error_frames_preserve_permissions_and_reject_corruption() {
    for (error, expected) in [
        (
            IoError::with_code(ErrorKind::PermissionDenied, 5, String::new()),
            RemoteError::Code(5),
        ),
        (
            IoError::from_kind(ErrorKind::PermissionDenied),
            RemoteError::Kind(ErrorKind::PermissionDenied),
        ),
    ] {
        let encoded = encode_error(&error);
        assert_eq!(read_batch(&encoded), Err(BatchError::Remote(expected)));
        for length in 0..encoded.len() {
            assert!(matches!(
                invalid_kind(read_batch(&encoded[..length])),
                ErrorKind::InvalidData | ErrorKind::UnexpectedEof
            ));
        }
        let mut trailing = encoded.clone();
        trailing.push(0);
        assert_eq!(invalid_kind(read_batch(&trailing)), ErrorKind::InvalidData);
        let mut with_entries = encoded;
        with_entries[0] = 1;
        assert_eq!(invalid_kind(read_batch(&with_entries)), ErrorKind::InvalidData);
    }
    let mut invalid = vec![0; 14];
    invalid[12] = 2;
    invalid[13] = 255;
    assert_eq!(invalid_kind(read_batch(&invalid)), ErrorKind::InvalidData);
    let zero = IoError::with_code(ErrorKind::Other, 0, String::new());
    assert_eq!(invalid_kind(read_batch(&encode_error(&zero))), ErrorKind::InvalidData);
}

#[test]
fn issue_103_batch_preserves_raw_identity_and_rejects_unbounded_or_invalid_frames() {
    let mut original = entry(99);
    original.original_name = vec![b'a' as u16, 0xd800];
    original.path = wide(r"\\server\share\");
    original.path.extend_from_slice(&original.original_name);
    original.modified = Some(Timestamp { seconds: 42, nanos: 7 });
    let encoded = encode_batch(&[original.clone()], 5, false).unwrap();
    let Batch { entries: decoded, skipped, done } = read_batch(&encoded).unwrap();
    assert_eq!(decoded[0].id, original.id);
    assert_eq!(decoded[0].path, original.path);
    assert_eq!(decoded[0].original_name, original.original_name);
    assert_eq!(decoded[0].modified, original.modified);
    assert_eq!(skipped, 5);
    assert!(!done);
    assert!(read_batch(&encoded[..encoded.len() - 1]).is_err());
    let mut trailing = encoded.clone();
    trailing.push(0);
    assert!(read_batch(&trailing).is_err());
    assert!(encode_batch(&vec![entry(1); MAX_BATCH_ITEMS + 1], 0, false).is_err());
    assert!(encode_batch(&[entry(1)], 0, true).is_err());
    assert!(read_batch(&vec![0; MAX_BATCH_BYTES + 1]).is_err());
    let mut invalid = vec![0; 13];
    invalid[12] = 2;
    assert!(read_batch(&invalid).is_err());
    let last = read_batch(&encode_batch(&[], 0, true).unwrap()).unwrap();
    assert!(last.entries.is_empty() && last.done);
}

#[test]
fn places_survive_the_way_to_the_other_process() {
    let items = vec![
        HelperItem { label: "共享".into(), target: wide(r"\\s\x"), is_directory: true },
        HelperItem { label: String::new(), target: vec![0xd800], is_directory: false },
    ];
    let bytes = write_result(&items).unwrap();
    assert_eq!(read_result(&bytes).unwrap(), items);
    assert!(read_result(&bytes[..bytes.len() - 1]).is_err());
    assert_eq!(isolated_network_devices(items.clone())[1].target, vec![0xd800]);
    assert_eq!(isolated_network_root(items)[0].label, "共享");
}

#[test]
fn a_listing_stops_at_its_limit_and_counts_what_it_could_not_read() {
    let visibility = FileVisibility { show_hidden: false, show_system: true };
    let found = |attributes: u32| {
        Met::Entry(FoundEntry {
            name: wide("f"),
            path: wide(r"C:\f"),
            attributes,
            is_dir: false,
            is_file: true,
            len: 3,
            modified: None,
            created: None,
        })
    };
    let mut listing = DirectoryListing::new();
    assert!(listing.offer(found(FILE_ATTRIBUTE_HIDDEN), visibility));
    assert!(listing.entries.is_empty());
    assert!(listing.offer(found(FILE_ATTRIBUTE_SYSTEM), visibility));
    assert!(listing.offer(Met::Unreadable, visibility));
    assert_eq!((listing.entries.len(), listing.skipped), (1, 1));
    assert_eq!(listing.entries[0].size_bytes, Some(3));
    while listing.entries.len() < MAX_HELPER_ITEMS {
        assert!(listing.offer(found(0), visibility));
    }
    assert!(!listing.truncated);
    assert!(!listing.offer(found(0), visibility));
    assert!(listing.truncated);
    assert_eq!(listing.entries.len(), MAX_HELPER_ITEMS);
    assert_eq!(listing.entries[4095].id, EntryId(4096));
}

#[test]
fn a_stream_of_real_length_arrives_without_gaps() {
    for count in [4096u32, 4097, 8193] {
        let mut batcher = DirectoryBatcher::new();
        let mut frames = Vec::new();
        for id in 1..=count {
            assert_eq!(batcher.next_id(), id);
            let Added { before, due } = batcher.add(entry(id)).unwrap();
            for batch in [before, due].into_iter().flatten() {
                frames.push(encode_batch(&batch.entries, batch.skipped, false).unwrap());
            }
        }
        batcher.skip();
        if let Some(batch) = batcher.finish() {
            frames.push(encode_batch(&batch.entries, batch.skipped, false).unwrap());
        }
        assert!(batcher.finish().is_none());
        frames.push(encode_batch(&[], 0, true).unwrap());
        let mut receiver = DirectoryReceiver::new();
        let mut received = Vec::new();
        for frame in &frames {
            received.extend(receiver.frame(frame).unwrap());
        }
        assert_eq!(received.len(), count as usize);
        for (index, entry) in received.iter().enumerate() {
            assert_eq!(entry.id, EntryId(index as u32 + 1));
        }
        let exit = ExitReport { success: true, text: "exit code: 0".into() };
        assert_eq!(receiver.settle(Some(exit), 0, 10_000), StreamStep::Done(1));
        assert!(receiver.frame(&encode_batch(&[], 0, true).unwrap()).is_err());
    }
}

#[test]
fn a_batch_is_taken_when_its_time_has_come() {
    let mut batcher = DirectoryBatcher::new();
    let first = batcher.add(entry(1)).unwrap();
    assert_eq!(first.before, None);
    assert_eq!(first.due.unwrap().entries, [entry(1)]);
    assert_eq!(batcher.add(entry(2)).unwrap(), Added { before: None, due: None });
    assert!(!batcher.is_due(99));
    assert!(batcher.is_due(100));
    assert_eq!(batcher.take_due(99), None);
    let batch = batcher.take_due(100).unwrap();
    assert_eq!(batch.entries, [entry(2)]);
    assert_eq!(batcher.next_id(), 3);
    assert!(batcher.finish().is_none());
    assert_eq!(batcher.add(entry(3)).unwrap(), Added { before: None, due: None });
    assert_eq!(batcher.take().entries, [entry(3)]);
    // A batch that is due is sent even where nothing was met since the last one.
    let empty = batcher.take_due(100).unwrap();
    assert_eq!((empty.entries.len(), empty.skipped), (0, 0));
}

#[test]
fn slow_progress_extends_the_time_for_a_stream() {
    let limit: u64 = 700;
    let mut receiver = DirectoryReceiver::new();
    let mut count: usize = 0;
    let mut whole_ms: u128 = 0;
    for id in 1..=12 {
        let idle_ms: u128 = 120;
        assert!(!receiver.is_idle(idle_ms, limit));
        assert_eq!(receiver.settle(None, idle_ms, limit), StreamStep::Wait);
        count += receiver.frame(&encode_batch(&[entry(id)], 0, false).unwrap()).unwrap().len();
        whole_ms += idle_ms;
    }
    assert_eq!(count, 12);
    assert!(whole_ms > limit as u128);
    assert!(receiver.is_idle(700, limit));
    assert!(matches!(receiver.settle(None, 700, limit), StreamStep::Failed(_)));
}

#[test]
fn a_stream_in_batches_of_any_size_arrives_whole() {
    let mut batcher = DirectoryBatcher::new();
    let mut frames = Vec::new();
    for id in 1..=700u32 {
        if id % 7 == 0 {
            batcher.skip();
        }
        let elapsed_ms: u128 = if id % 50 == 0 { 100 } else { 1 };
        let due = batcher.take_due(elapsed_ms);
        let added = batcher.add(entry(id)).unwrap();
        for batch in [due, added.before, added.due].into_iter().flatten() {
            frames.push(encode_batch(&batch.entries, batch.skipped, false).unwrap());
        }
    }
    let last = batcher.finish().unwrap();
    frames.push(encode_batch(&last.entries, last.skipped, false).unwrap());
    frames.push(encode_batch(&[], 0, true).unwrap());
    let mut receiver = DirectoryReceiver::new();
    let mut received = Vec::new();
    for frame in &frames {
        received.extend(receiver.frame(frame).unwrap());
    }
    assert_eq!(received.len(), 700);
    assert_eq!(received[699].original_name, entry(700).original_name);
    let exit = ExitReport { success: true, text: "exit code: 0".into() };
    assert_eq!(receiver.settle(Some(exit), 0, ISOLATED_TIMEOUT_MS), StreamStep::Done(100));
}

#[test]
fn hung_crashed_incomplete_and_disordered_helpers_are_told_apart() {
    let mut receiver = DirectoryReceiver::new();
    assert_eq!(receiver.settle(None, 9_999, ISOLATED_TIMEOUT_MS), StreamStep::Wait);
    match receiver.settle(None, 10_000, ISOLATED_TIMEOUT_MS) {
        StreamStep::Failed(error) => assert_eq!(error.kind, ErrorKind::TimedOut),
        other => panic!("{other:?}"),
    }
    for (success, text) in [(false, "exit code: 17"), (true, "exit code: 0")] {
        let exit = ExitReport { success, text: text.into() };
        match receiver.settle(Some(exit), 0, ISOLATED_TIMEOUT_MS) {
            StreamStep::Failed(error) => assert_eq!(
                error.message,
                format!("network directory helper exited with {text}; completed=false")
            ),
            other => panic!("{other:?}"),
        }
    }
    let out_of_order = encode_batch(&[entry(2)], 0, false).unwrap();
    match receiver.frame(&out_of_order) {
        Err(BatchError::Invalid(error)) => assert_eq!(error.kind, ErrorKind::InvalidData),
        other => panic!("{other:?}"),
    }
    assert_eq!(cancelled().kind, ErrorKind::Interrupted);
}

#[test]
fn an_error_of_the_folder_is_the_last_frame() {
    let missing = IoError::with_code(ErrorKind::NotFound, 2, "gone".into());
    assert_eq!(stream_directory(None, false), StreamEnd::Sent);
    match stream_directory(Some(&missing), false) {
        StreamEnd::Report(frame) => {
            assert_eq!(read_batch(&frame), Err(BatchError::Remote(RemoteError::Code(2))))
        }
        other => panic!("{other:?}"),
    }
}

#[test]
fn a_deleted_slot_is_free() {
    let error = |code: i32| IoError::with_code(ErrorKind::NotFound, code, String::new());
    assert_eq!(frame_slot_exists(0x80, error(2)), Ok(true));
    for code in [ERROR_FILE_NOT_FOUND, ERROR_PATH_NOT_FOUND] {
        assert_eq!(frame_slot_exists(INVALID_FILE_ATTRIBUTES, error(code)), Ok(false));
    }
    assert!(frame_slot_exists(INVALID_FILE_ATTRIBUTES, error(5)).is_err());
    assert_eq!(
        INVALID_FILE_ATTRIBUTES,
        windows_sys::Win32::Storage::FileSystem::INVALID_FILE_ATTRIBUTES
    );
    assert_eq!(ERROR_FILE_NOT_FOUND as u32, Foundation::ERROR_FILE_NOT_FOUND);
    assert_eq!(ERROR_PATH_NOT_FOUND as u32, Foundation::ERROR_PATH_NOT_FOUND);
}

#[test]
fn helper_modes_are_read_from_the_arguments() {
    let modes = [
        ChildMode::Directory,
        ChildMode::Connect,
        ChildMode::Disconnect,
        ChildMode::FileMutation,
        ChildMode::Devices,
        ChildMode::Root,
    ];
    for mode in modes {
        let args = vec![
            wide("asterfiles.exe"),
            wide("--asterfiles-network-child"),
            wide(mode.name()),
            wide("in"),
            wide("out"),
        ];
        assert_eq!(try_run_child_from_args(&args).unwrap(), Some(mode));
        let expected = if mode == ChildMode::FileMutation { None } else { Some(10_000) };
        assert_eq!(mode.timeout_ms(), expected);
    }
    assert_eq!(try_run_child_from_args(&[wide("asterfiles.exe")]).unwrap(), None);
    let unknown = vec![wide("a"), wide("--asterfiles-network-child"), wide("x"), wide("i"), wide("o")];
    assert!(try_run_child_from_args(&unknown).is_err());
    assert_eq!((ISOLATED_TIMEOUT_MS, ISOLATED_POLL_MS), (10_000, 20));
    assert_eq!(
        CREATE_NO_WINDOW,
        windows_sys::Win32::System::Threading::CREATE_NO_WINDOW
    );
}

#[test]
fn a_helper_is_killed_when_it_is_late_or_unwanted() {
    let connect = ChildMode::Connect;
    assert_eq!(run_isolated(connect, None, false, 9_999), HelperStep::Wait);
    match run_isolated(connect, None, true, 10_000) {
        HelperStep::Kill(error) => assert_eq!(error.kind, ErrorKind::Interrupted),
        other => panic!("{other:?}"),
    }
    match run_isolated(connect, None, false, 10_000) {
        HelperStep::Kill(error) => assert_eq!(error.kind, ErrorKind::TimedOut),
        other => panic!("{other:?}"),
    }
    let mutation = ChildMode::FileMutation;
    assert_eq!(run_isolated(mutation, None, false, u128::MAX), HelperStep::Wait);
    assert!(matches!(run_isolated(mutation, None, true, 0), HelperStep::Kill(_)));
    let exit = |success: bool| ExitReport { success, text: "exit code: 1".into() };
    assert_eq!(run_isolated(connect, Some(exit(true)), true, 10_000), HelperStep::ReadOutput);
    match run_isolated(connect, Some(exit(false)), false, 0) {
        HelperStep::Failed(error) => {
            assert_eq!(error.message, "network helper exited with exit code: 1")
        }
        other => panic!("{other:?}"),
    }
}

fn info(label: &str, path: &str) -> ShellItemInfo {
    shell_item_info(Some(&wide(label)), Some(&wide(path)), Some(&wide(path)))
}

#[test]
fn shares_are_sorted_by_their_labels_and_stay_in_order() {
    let items = vec![
        info("b", r"\\s\b"),
        info("A", r"\\s\first"),
        info("a", r"\\s\second"),
        shell_item_info(Some(&wide("nowhere")), None, None),
    ];
    let found = enumerate_network_root(&items);
    let labels: Vec<&str> = found.iter().map(|item| item.label.as_str()).collect();
    assert_eq!(labels, ["A", "a", "b"]);
    assert_eq!(found[0].target, wide(r"\\s\first"));
}

#[test]
fn devices_and_names_are_taken_from_the_shell() {
    let devices = enumerate_network_devices(&[info("NAS", r"\\nas"), info("disk", r"C:\")]);
    assert_eq!(devices.len(), 1);
    assert_eq!((devices[0].label.as_str(), devices[0].target.clone()), ("NAS", wide(r"\\nas")));
    assert_eq!(display_name(Some(&[])), None);
    assert_eq!(display_name(Some(&wide("x"))), Some("x".into()));
    assert_eq!(target_link(&wide(r"C:\n\place.LNK")), wide(r"C:\n\place.LNK"));
    assert_eq!(target_link(&wide(r"C:\n\place")), wide(r"C:\n\place\target.lnk"));
}

#[test]
fn each_imported_host_is_listed_once() {
    let location = |target: &str| NetworkLocation {
        label: String::new(),
        target: Some(wide(target)),
        shell_path: wide(r"C:\n"),
        shell_identity: None,
    };
    let devices = network_devices_from_imported_locations(&[
        location(r"\\NAS\a"),
        location(r"\\NAS\b"),
        location(r"\\other\c"),
        location(r"C:\d"),
    ]);
    let labels: Vec<&str> = devices.iter().map(|device| device.label.as_str()).collect();
    assert_eq!(labels, ["NAS", "other"]);
    let imported = ImportedItem {
        item: info("place", r"C:\n\place"),
        resolved: Some(wide(r"\\s\x")),
    };
    let locations = enumerate_network_locations(&[imported]);
    assert_eq!(locations[0].target, Some(wide(r"\\s\x")));
    assert_eq!(locations[0].shell_path, wide(r"C:\n\place"));
}

#[test]
fn a_mapped_drive_leads_to_its_share() {
    let answer = DriveAnswer::Remote(wide(r"\\server\share"));
    assert_eq!(
        network_drive_to_unc(&wide(r"Z:\a\b"), &answer).unwrap(),
        wide(r"\\server\share\a\b")
    );
    assert_eq!(drive_name(&wide(r"Z:\a")), Some(wide("Z:\0")));
    assert_eq!(drive_name(&wide(r"\\s\x")), None);
    assert_eq!(
        connection_step(Foundation::ERROR_MORE_DATA, 100),
        ConnectionStep::Enlarge(512)
    );
    assert_eq!(
        connection_step(Foundation::ERROR_MORE_DATA, 600),
        ConnectionStep::Enlarge(1200)
    );
    assert_eq!(connection_step(0, 600), ConnectionStep::Answered);
    assert_eq!(connection_step(5, 600), ConnectionStep::Failed(5));
}

#[test]
fn connections_name_the_share_and_store_only_whole_credentials() {
    let path = wide(r"\\server\share\deep");
    let request = connect_request(&path, &no_answer(), Some("u"), None).unwrap();
    assert_eq!(request.remote, wide("\\\\server\\share\0"));
    assert_eq!(request.user, Some(wide("u\0")));
    assert_eq!(request.password, None);
    assert_eq!(
        connect_network_share(0, Some("u"), Some("p"), true),
        ConnectStep::StoreCredential
    );
    assert_eq!(
        connect_network_share(0, Some("u"), None, true),
        ConnectStep::Connected(NetworkResult { code: 0 })
    );
    assert_eq!(
        connect_network_share(5, Some("u"), Some("p"), true),
        ConnectStep::Failed(NetworkAuthError { kind: NetworkAuthErrorKind::AccessDenied, code: 5 })
    );
    let credential = network_credential(&wide(r"\\server\share"), "u", "秘").unwrap();
    assert_eq!(credential.target, wide("server\\share\0"));
    assert_eq!(credential.secret, [0xd8, 0x79]);
    let long = "x".repeat(CRED_MAX_CREDENTIAL_BLOB_SIZE / 2 + 1);
    assert!(network_credential(&wide(r"\\server\share"), "u", &long).is_err());
    assert_eq!(
        CRED_MAX_CREDENTIAL_BLOB_SIZE as u32,
        windows_sys::Win32::Security::Credentials::CRED_MAX_CREDENTIAL_BLOB_SIZE
    );
    assert_eq!(credential_outcome(true, 5), Ok(NetworkResult { code: 0 }));
    assert!(credential_outcome(false, 5).is_err());
}

#[test]
fn secrets_are_overwritten() {
    let mut bytes = vec![1, 2, 3];
    clear_bytes(&mut bytes);
    assert_eq!(bytes, [0, 0, 0]);
    let mut units = Some(vec![1, 2]);
    clear_secret(&mut units);
    assert_eq!(units, Some(vec![0, 0]));
}

#[test]
fn a_share_is_left_with_or_without_force() {
    let path = wide(r"\\server\share\deep");
    let plain = disconnect_network_share(&path, &no_answer()).unwrap();
    assert_eq!((plain.name, plain.force), (wide("\\\\server\\share\0"), false));
    assert!(force_disconnect_network_share(&path, &no_answer()).unwrap().force);
    assert_eq!(
        disconnect_network_share(&wide(r"C:\x"), &no_answer()).unwrap_err().kind,
        NetworkAuthErrorKind::BadPath
    );
    assert_eq!(disconnect_outcome(0), Ok(NetworkResult { code: 0 }));
    assert!(disconnect_outcome(2250).is_err());
}

#[test]
fn events_are_logged_as_lines() {
    assert_eq!(
        record_runtime_event(12, 34, "started"),
        "{\"timestamp_ms\":12,\"pid\":34,\"event\":\"started\"}\n"
    );
}

#[test]
fn a_folder_with_too_many_items_is_refused() {
    let whole = DirectoryListing { entries: Vec::new(), skipped: 3, truncated: false };
    assert_eq!(isolated_directory(whole).unwrap().1, 3);
    let cut = DirectoryListing { entries: Vec::new(), skipped: 0, truncated: true };
    assert_eq!(
        isolated_directory(cut).unwrap_err().message,
        "network directory exceeds the 4096 item safety limit"
    );
}

#[test]
fn an_item_is_placed_in_the_file_system_before_the_shell() {
    let both = shell_item_info(None, Some(&wide("::{shell}")), Some(&wide(r"\\s\a")));
    assert_eq!(item_place(&both), Some(wide(r"\\s\a")));
    let shell = shell_item_info(None, Some(&wide("::{shell}")), None);
    assert_eq!(item_place(&shell), Some(wide("::{shell}")));
    assert_eq!(item_place(&shell_item_info(None, None, None)), None);
}

#[test]
fn a_broken_error_frame_is_shown_as_invalid_data() {
    let mut frame = vec![0; 14];
    frame[12] = 2;
    frame[13] = 255;
    match read_batch(&frame) {
        Err(BatchError::Invalid(error)) => assert_eq!(error.message, "invalid data"),
        _ => panic!("the frame is broken"),
    }
}
