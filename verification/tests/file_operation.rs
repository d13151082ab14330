use std::collections::HashMap;

use asterfiles::errors::ErrorKind;
use asterfiles::windows::file_operation::{
    failed_result, item_permission, merge_recycle_results, place_restored, recycle_flags,
    restore_flags, restore_folder, restore_moved, restore_name, same_windows_path,
    shell_item_from_pidl, shell_path, unique_restore_path, DeleteCallbackResult, Placement,
    RecycleBatch, RestoreRecycleResult, E_ABORT, FOFX_EARLYFAILURE, FOFX_RECYCLEONDELETE,
    FOF_ALLOWUNDO, FOF_NOCONFIRMATION, FOF_NOERRORUI, FOF_RENAMEONCOLLISION, FOF_SILENT,
};
use asterfiles::windows::free_name::NameStep;
use asterfiles::windows::path_relation::FileIdentity;

fn wide(text: &str) -> Vec<u16> {
    text.encode_utf16().collect()
}

fn text(units: &[u16]) -> String {
    String::from_utf16(units).unwrap()
}

#[test]
fn empty_path_is_rejected_without_shell_ui() {
    let paths = vec![vec![]];
    let mut batch = RecycleBatch::new();
    assert_eq!(batch.prepare(0, &paths[0]), None);
    assert!(!batch.is_due(false));
    let result = batch.finish(&paths, HashMap::new(), None, false, false);
    assert_eq!(result.items.len(), 1);
    assert!(result.items[0].result.is_err());
    assert!(!result.aborted);
}

#[test]
fn strict_recycle_flags_disable_shell_ui_and_forbid_permanent_delete() {
    let flags = recycle_flags();
    for required in [
        FOF_ALLOWUNDO,
        FOFX_RECYCLEONDELETE,
        FOF_NOCONFIRMATION,
        FOF_NOERRORUI,
        FOF_SILENT,
    ] {
        assert_eq!(flags & required, required);
    }
}

fn reported(result: i32, recycled_identity: Option<Vec<u8>>) -> DeleteCallbackResult {
    DeleteCallbackResult {
        result,
        message: "Unspecified error".into(),
        recycled_identity,
        created_path: None,
    }
}

#[test]
fn batch_results_preserve_input_order_and_item_failures() {
    let paths = vec![wide("first"), wide("second")];
    let queued = vec![0, 1];
    let reported = HashMap::from([
        (0, reported(0, Some(vec![0, 0]))),
        (1, reported(0x80004005_u32 as i32, None)),
    ]);
    let results = merge_recycle_results(&paths, HashMap::new(), &queued, reported, None, false);
    assert_eq!(
        results.iter().map(|item| &item.path).collect::<Vec<_>>(),
        [&paths[0], &paths[1]]
    );
    assert!(results[0].result.is_ok());
    assert!(results[1].result.is_err());
}

#[test]
fn batch_results_keep_preparation_errors() {
    let path = wide("bad");
    let results = merge_recycle_results(
        std::slice::from_ref(&path),
        HashMap::from([(0, Err("invalid path".to_owned()))]),
        &[],
        HashMap::new(),
        None,
        false,
    );
    assert_eq!(results[0].result, Err("invalid path".to_owned()));
}

#[test]
fn issue_83_restore_flags_never_confirm_or_rename_on_collision() {
    let flags = restore_flags();
    assert_eq!(flags & FOFX_EARLYFAILURE, FOFX_EARLYFAILURE);
    assert_eq!(flags & FOF_NOCONFIRMATION, 0);
    assert_eq!(flags & FOF_RENAMEONCOLLISION, 0);
}

#[test]
fn operation_flags_are_those_of_the_system() {
    assert_eq!(FOF_SILENT, windows_sys::Win32::UI::Shell::FOF_SILENT);
    assert_eq!(FOF_ALLOWUNDO, windows_sys::Win32::UI::Shell::FOF_ALLOWUNDO);
    assert_eq!(FOF_NOERRORUI, windows_sys::Win32::UI::Shell::FOF_NOERRORUI);
    assert_eq!(FOF_RENAMEONCOLLISION, windows_sys::Win32::UI::Shell::FOF_RENAMEONCOLLISION);
    assert_eq!(FOFX_RECYCLEONDELETE, windows_sys::Win32::UI::Shell::FOFX_RECYCLEONDELETE);
    assert_eq!(FOFX_EARLYFAILURE, windows_sys::Win32::UI::Shell::FOFX_EARLYFAILURE);
    assert_eq!(E_ABORT as i32, windows_sys::Win32::Foundation::E_ABORT);
}

#[test]
fn issue_83_restore_uses_a_unique_temporary_name() {
    let original = wide(r"C:\asterfiles-restore-name-test\item.txt");
    let first = match unique_restore_path(&original, &[false]) {
        NameStep::Free(path) => path,
        NameStep::Probe(_) => panic!("the first name is free"),
    };
    let second = match unique_restore_path(&original, &[true, false]) {
        NameStep::Free(path) => path,
        NameStep::Probe(_) => panic!("the second name is free"),
    };
    assert!(matches!(unique_restore_path(&original, &[true]), NameStep::Probe(_)));
    assert_ne!(first, second);
    assert!(text(&second).starts_with(r"C:\asterfiles-restore-name-test\"));
    assert!(text(&second).ends_with("item.txt"));
}

#[test]
fn issue_83_invalid_recycled_identity_is_rejected_before_shell_access() {
    assert!(shell_item_from_pidl(&[]).is_err());
    assert!(shell_item_from_pidl(&[1, 2, 3]).is_err());
    assert!(shell_item_from_pidl(&[1, 0, 0]).is_ok());
}

#[test]
fn issue_83_windows_path_comparison_handles_drive_letter_case() {
    assert!(same_windows_path(&wide(r"C:\Example\File.txt"), &wide(r"c:\example\file.TXT")));
    assert!(!same_windows_path(
        &wide(r"C:\Example\File.txt"),
        &wide(r"C:\Example\Other.txt")
    ));
}

#[test]
fn embedded_nul_is_rejected_before_shell_access() {
    let path = wide("invalid\0path");
    assert_eq!(shell_path(&path).unwrap_err().kind, ErrorKind::InvalidInput);
}

#[test]
fn a_batch_reports_every_item_once() {
    let paths = vec![wide(r"C:\a"), wide(r"C:\b"), wide(r"C:\c")];
    let mut batch = RecycleBatch::new();
    assert_eq!(batch.prepare(0, &paths[0]), Some(wide("C:\\a\0")));
    batch.submitted(0, None);
    batch.submitted(1, Some("refused".into()));
    batch.submitted(2, None);
    assert!(batch.is_due(false));
    assert!(!batch.is_due(true));
    let result = batch.finish(
        &paths,
        HashMap::from([(0, reported(0, Some(vec![0, 0])))]),
        Some("shell failed"),
        false,
        true,
    );
    assert!(result.aborted);
    assert!(result.items[0].result.is_ok());
    assert_eq!(result.items[1].result, Err("refused".into()));
    assert!(result.items[2].result.is_err());
    let failed = failed_result(&paths, "no apartment");
    assert!(failed.items.iter().all(|item| item.result == Err("no apartment".into())));
    assert_eq!(item_permission(true), Err(E_ABORT));
    assert_eq!(item_permission(false), Ok(()));
}

#[test]
fn restoring_checks_its_destination() {
    let original = wide(r"C:\dir\a.txt");
    assert_eq!(restore_folder(&original, false, false), Ok(wide(r"C:\dir")));
    assert_eq!(
        restore_folder(&original, true, false),
        Err("recycle restore cancelled".into())
    );
    assert_eq!(
        restore_folder(&original, false, true),
        Err(r"restore destination already exists: C:\dir\a.txt".into())
    );
    assert_eq!(
        restore_folder(&wide(r"C:\"), false, false),
        Err("restore destination has no parent".into())
    );
    assert_eq!(restore_name(&original), Ok(wide("a.txt\0")));
    assert_eq!(
        restore_name(&wide(r"C:\")),
        Err("restore temporary destination has no name".into())
    );
}

#[test]
fn a_restored_item_must_have_arrived() {
    let temporary = wide(r"C:\dir\tmp");
    let arrived = DeleteCallbackResult {
        result: 0,
        message: String::new(),
        recycled_identity: Some(vec![0, 0]),
        created_path: Some(wide(r"c:\DIR\tmp")),
    };
    assert_eq!(restore_moved(Some(&arrived), &temporary, false, true), Ok(()));
    assert_eq!(
        restore_moved(Some(&arrived), &temporary, false, false),
        Err("Shell did not restore the recycled item".into())
    );
    let failed = reported(-1, None);
    assert_eq!(
        restore_moved(Some(&failed), &temporary, false, true),
        Err("Unspecified error".into())
    );
    let identity = FileIdentity { volume: 1, file: [2; 16] };
    assert!(matches!(
        place_restored(&wide(r"C:\dir\a"), temporary.clone(), identity, Placement::Moved),
        RestoreRecycleResult::Completed
    ));
    match place_restored(&wide(r"C:\dir\a"), temporary.clone(), identity, Placement::Occupied) {
        RestoreRecycleResult::Pending { temporary: kept, identity: own, .. } => {
            assert_eq!(kept, temporary);
            assert_eq!(own, identity);
        }
        RestoreRecycleResult::Completed => panic!("the place is taken"),
    }
}
