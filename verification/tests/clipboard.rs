use asterfiles::errors::{ErrorKind, IoError};
use asterfiles::windows::clipboard::{
    check_dropfiles, file_list_formats, file_list_found, retry_delay, ClipboardOperation,
};
use asterfiles::windows::data_format::{
    clipboard_path, contents_format, dropped_path, encode_dropfiles, format_etc, format_matches,
    supports_format, validate_path, CF_HDROP,
};
use windows_sys::Win32::System::Com::TYMED_HGLOBAL;

fn wide(text: &str) -> Vec<u16> {
    text.encode_utf16().collect()
}

#[test]
fn dropfiles_preserves_windows_paths() {
    let paths = vec![wide(r"C:\资料\一.txt"), wide(r"\\server\share\two")];
    let bytes = encode_dropfiles(&paths, "invalid path").unwrap();
    assert_eq!(u32::from_le_bytes([bytes[0], bytes[1], bytes[2], bytes[3]]), 20);
    assert_eq!(&bytes[16..20], &[1, 0, 0, 0]);
    assert!(bytes.ends_with(&[0, 0, 0, 0]));
    let units = bytes[20..]
        .chunks(2)
        .map(|pair| u16::from_le_bytes([pair[0], pair[1]]))
        .collect::<Vec<_>>();
    let mut expected = paths[0].clone();
    expected.push(0);
    expected.extend(&paths[1]);
    expected.extend([0, 0]);
    assert_eq!(units, expected);
}

#[test]
fn data_object_formats_match_explorer_contract() {
    let effect_format = 0xC123;
    assert!(supports_format(&format_etc(CF_HDROP), CF_HDROP));
    assert!(supports_format(&format_etc(effect_format), effect_format));
    assert!(!supports_format(&format_etc(99), CF_HDROP));
}

#[test]
fn unusable_paths_are_not_listed() {
    let error = encode_dropfiles(&[wide("a"), vec![]], "bad path").unwrap_err();
    assert_eq!(error.kind, ErrorKind::InvalidInput);
    assert_eq!(error.message, "bad path");
    assert!(validate_path(&[b'a' as u16, 0], "bad path").is_err());
    assert!(validate_path(&wide("a"), "bad path").is_ok());
}

#[test]
fn the_effect_says_whether_files_are_copied_or_moved() {
    let paths = vec![wide(r"C:\a")];
    let copied = file_list_formats(&paths, ClipboardOperation::Copy, 49_152).unwrap();
    let moved = file_list_formats(&paths, ClipboardOperation::Move, 49_152).unwrap();
    assert_eq!(copied[0].0, CF_HDROP);
    assert!(copied.contains(&(49_152, vec![1, 0, 0, 0])));
    assert!(moved.contains(&(49_152, vec![2, 0, 0, 0])));
    assert_eq!(file_list_found(paths.clone(), Some(2)).operation, ClipboardOperation::Move);
    assert_eq!(file_list_found(paths.clone(), Some(5)).operation, ClipboardOperation::Copy);
    assert_eq!(file_list_found(paths, None).operation, ClipboardOperation::Copy);
}

#[test]
fn a_busy_clipboard_is_tried_again_a_few_times() {
    assert_eq!(retry_delay(0), Some(5));
    assert_eq!(retry_delay(6), Some(35));
    assert_eq!(retry_delay(7), None);
}

#[test]
fn requests_match_by_data_and_by_a_shared_medium() {
    let memory = format_etc(7);
    let any = contents_format(7, 3);
    assert_eq!(any.index, 3);
    assert_eq!(any.medium, 5);
    assert!(!format_matches(&memory, &any));
    let mut stream = memory;
    stream.medium = 4;
    assert!(!format_matches(&memory, &stream));
    stream.medium = 5;
    assert!(format_matches(&memory, &stream));
}

#[test]
fn clipboard_numbers_are_those_of_the_system() {
    assert_eq!(CF_HDROP, windows_sys::Win32::System::Ole::CF_HDROP);
    assert_eq!(
        asterfiles::windows::data_format::TYMED_HGLOBAL as i32,
        windows_sys::Win32::System::Com::TYMED_HGLOBAL
    );
    assert_eq!(
        asterfiles::windows::data_format::TYMED_ISTREAM as i32,
        windows_sys::Win32::System::Com::TYMED_ISTREAM
    );
}

#[test]
fn a_malformed_list_is_refused() {
    assert!(check_dropfiles(TYMED_HGLOBAL as u32, Some(20)).is_ok());
    for size in [None, Some(19)] {
        assert_eq!(
            check_dropfiles(TYMED_HGLOBAL as u32, size).unwrap_err().message,
            "clipboard file list is malformed"
        );
    }
    assert_eq!(
        check_dropfiles(4, Some(20)).unwrap_err().message,
        "clipboard file list is not HGLOBAL data"
    );
}

#[test]
fn a_path_that_was_not_copied_is_an_error() {
    let buffer = || vec![0x43, 0x3a, 0];
    let failure = || IoError::with_code(ErrorKind::PermissionDenied, 5, "denied".into());
    assert_eq!(clipboard_path(2, 2, buffer(), failure()), Ok(vec![0x43, 0x3a]));
    assert_eq!(clipboard_path(2, 1, buffer(), failure()), Ok(vec![0x43]));
    assert_eq!(clipboard_path(0, 0, vec![0], failure()), Ok(vec![]));
    assert_eq!(clipboard_path(2, 0, buffer(), failure()), Err(failure()));
    assert_eq!(dropped_path(2, 2, buffer()), Ok(vec![0x43, 0x3a]));
    assert_eq!(dropped_path(0, 0, vec![0]), Ok(vec![]));
    for copied in [0, 1, 3] {
        let error = dropped_path(2, copied, buffer()).unwrap_err();
        assert_eq!(error.kind, ErrorKind::Other);
        assert_eq!(error.message, "unable to read CF_HDROP path");
    }
}
