use std::sync::{Arc, Mutex};

use asterfiles::errors::ErrorKind;
use asterfiles::windows::data_format::{encode_dropfiles, format_etc, supports_format, CF_HDROP};
use asterfiles::windows::drag_drop::effects::{
    allowed_effects, allowed_effects_for_target, drop_key_state, negotiate_effect, same_volume,
    DropEffect, ALLOW_COPY, ALLOW_LINK, ALLOW_MOVE, DROPEFFECT_COPY, DROPEFFECT_LINK,
    DROPEFFECT_MOVE, DROPEFFECT_NONE, MK_ALT, MK_CONTROL, MK_LBUTTON, MK_RBUTTON, MK_SHIFT,
};
use asterfiles::windows::drag_drop::materialize::{
    check_virtual, contents_medium, materialize_virtual, read_virtual_entries,
    snapshot_ephemeral, stage_drop, virtual_file_names, virtual_formats, ContentsMedium,
};
use asterfiles::windows::drag_drop::outbound::{
    drag_feedback_result, outbound_formats, outbound_result, query_continue_drag,
    shell_data_object, shell_parent, DataSource, DragCursorFeedback, OutboundFormats,
    SetDataAction, ShellParent, DRAGDROP_S_CANCEL, DRAGDROP_S_DROP, DRAGDROP_S_USEDEFAULTCURSORS,
};
use asterfiles::windows::drag_drop::registration::{
    ensure_apartment, registration_action, ApartmentNeed, ExplicitRevoke, RegistrationAction,
    RegistrationStore,
};
use asterfiles::windows::drag_drop::staging::{
    common_parent, incoming_root_name, is_ephemeral_drop, is_under_user_temp, owns_drop_staging,
    parse_descriptors, relatives_under_common_parent, safe_relative, top_level_paths,
};
use asterfiles::windows::drag_drop::tab::{
    begin_tracking, card_colours, card_size, composite_icon, decode_tab_drag_payload,
    encode_tab_drag_payload, grab_point, icon_place, make_opaque, own_tab, tab_drag_result,
    title_area, track_tab_drop, track_tab_hover, track_tab_leave, IconPlace, TabDragImage,
    TabDragPayload, TabDropPoint, TitleArea,
};
use asterfiles::windows::drag_drop::target::{
    incoming_copy_effect, negotiate_target_effect, DropGesture, DropIntent, DropPlan, DropTarget,
    DropTargetRect, DropTargetSnapshot, EnteringData, FolderDropTarget, ScreenPoint, StagedDrop,
};
use windows_sys::Win32::System::Com::{TYMED_HGLOBAL, TYMED_ISTREAM};

fn wide(text: &str) -> Vec<u16> {
    text.encode_utf16().collect()
}

const ALL_EFFECTS: u32 = DROPEFFECT_COPY | DROPEFFECT_MOVE | DROPEFFECT_LINK;
const POINT: ScreenPoint = ScreenPoint { x: 10, y: 10 };

fn memory_target() -> DropTargetSnapshot {
    DropTargetSnapshot {
        current: Some(wide(r"C:\MemoryTarget")),
        folder_rows: vec![],
        quick_access_pin: None,
    }
}

fn enter(gesture: &mut DropGesture, paths: &[Vec<u16>], effects: u32, keys: u32) {
    gesture.drag_enter(
        EnteringData::Paths(paths.to_vec()),
        &wide(r"C:\Temp"),
        effects,
        keys,
        POINT,
        &memory_target(),
    );
}

fn drop_files(
    gesture: &mut DropGesture,
    paths: &[Vec<u16>],
    keys: u32,
) -> (DropEffect, Option<DropIntent>) {
    match gesture.begin_drop() {
        DropPlan::Data(context) => {
            let outcome = gesture.finish_file_drop(
                context,
                Some(paths.to_vec()),
                keys,
                POINT,
                &memory_target(),
            );
            (outcome.effect, outcome.intent)
        }
        DropPlan::NothingDragged => (DropEffect::Nothing, None),
        DropPlan::Tab(_) => panic!("no tab was dragged"),
    }
}

#[test]
fn native_file_drop_rejects_isolated_over_leave_and_duplicate_callbacks() {
    let paths = vec![wide(r"C:\MemorySource\Bridge")];
    let mut gesture = DropGesture::new();
    assert_eq!(drop_files(&mut gesture, &paths, 0), (DropEffect::Nothing, None));
    gesture.drag_over(MK_LBUTTON, POINT, &memory_target());
    assert_eq!(drop_files(&mut gesture, &paths, 0), (DropEffect::Nothing, None));
    enter(&mut gesture, &paths, ALL_EFFECTS, MK_LBUTTON);
    gesture.drag_leave();
    assert_eq!(drop_files(&mut gesture, &paths, 0), (DropEffect::Nothing, None));
    enter(&mut gesture, &paths, ALL_EFFECTS, MK_LBUTTON);
    let (_, intent) = drop_files(&mut gesture, &paths, 0);
    assert_eq!(intent.unwrap().effect, DropEffect::Move);
    assert_eq!(drop_files(&mut gesture, &paths, 0), (DropEffect::Nothing, None));
}

#[test]
fn native_file_drop_consumes_context_when_source_identity_changes() {
    let original = vec![wide(r"C:\MemorySource\Bridge")];
    let replaced = vec![wide(r"C:\MemorySource\Whitebox")];
    let mut gesture = DropGesture::new();
    enter(&mut gesture, &original, ALL_EFFECTS, MK_LBUTTON);
    assert_eq!(drop_files(&mut gesture, &replaced, 0), (DropEffect::Nothing, None));
    assert_eq!(drop_files(&mut gesture, &original, 0), (DropEffect::Nothing, None));
}

#[test]
fn native_file_drop_preserves_copy_move_link_and_tracked_right_button() {
    let paths = vec![wide(r"C:\MemorySource\中文 Bridge")];
    for (modifier, button, expected) in [
        (0, MK_LBUTTON, DropEffect::Move),
        (MK_CONTROL, MK_LBUTTON, DropEffect::Copy),
        (MK_ALT, MK_LBUTTON, DropEffect::Link),
        (0, MK_RBUTTON, DropEffect::Move),
    ] {
        let mut gesture = DropGesture::new();
        enter(&mut gesture, &paths, ALL_EFFECTS, modifier | button);
        gesture.drag_over(modifier | button, POINT, &memory_target());
        let (effect, intent) = drop_files(&mut gesture, &paths, modifier);
        let intent = intent.unwrap();
        assert_eq!(intent.paths, paths);
        assert_eq!(intent.effect, expected);
        assert_eq!(effect.native(), expected.native());
        assert_eq!(intent.right_button, button == MK_RBUTTON);
        assert_eq!(intent.allowed_effects, ALLOW_COPY | ALLOW_MOVE | ALLOW_LINK);
        assert!(drop_files(&mut gesture, &paths, modifier).1.is_none());
    }
}

#[test]
fn native_file_drop_cannot_expand_the_entered_source_effect_mask() {
    let paths = vec![wide(r"C:\MemorySource\Bridge")];
    let mut gesture = DropGesture::new();
    enter(&mut gesture, &paths, DROPEFFECT_COPY, MK_LBUTTON | MK_CONTROL);
    assert_eq!(drop_files(&mut gesture, &paths, MK_SHIFT), (DropEffect::Nothing, None));
    assert_eq!(drop_files(&mut gesture, &paths, MK_CONTROL), (DropEffect::Nothing, None));
}

#[test]
fn outbound_dropfiles_preserve_unicode_long_and_unc_paths() {
    let paths = vec![
        wide(r"C:\资料\一.txt"),
        wide(&format!(r"C:\{}\long.txt", "segment\\".repeat(40))),
        wide(r"\\server\share\folder"),
    ];
    let bytes = encode_dropfiles(&paths, "invalid").unwrap();
    assert_eq!(bytes[0], 20);
    assert_eq!(bytes[16], 1);
    assert!(bytes.ends_with(&[0, 0, 0, 0]));
    assert!(bytes.len() > 520);
}

#[test]
fn outbound_data_formats_match_explorer_contract() {
    let preferred_format = 0xC123;
    let performed_format = 0xC124;
    assert!(supports_format(&format_etc(CF_HDROP), CF_HDROP));
    assert!(supports_format(&format_etc(preferred_format), preferred_format));
    assert!(supports_format(&format_etc(performed_format), performed_format));
    assert!(!supports_format(&format_etc(99), CF_HDROP));
}

#[test]
fn tab_drag_payload_round_trips_and_rejects_wrong_magic_or_size() {
    let payload = TabDragPayload { process_id: 42, source_hwnd: 0x1234, tab_id: 99 };
    let bytes = encode_tab_drag_payload(payload);
    assert_eq!(decode_tab_drag_payload(&bytes), Some(payload));
    assert_eq!(decode_tab_drag_payload(&bytes[..23]), None);
    let mut wrong_magic = bytes;
    wrong_magic[0] = b'X';
    assert_eq!(decode_tab_drag_payload(&wrong_magic), None);
}

#[test]
fn tab_payloads_keep_handles_with_the_highest_bit() {
    let payload = TabDragPayload { process_id: 1, source_hwnd: -2, tab_id: 3 };
    let bytes = encode_tab_drag_payload(payload);
    assert_eq!(&bytes[..8], b"ASTFTAB1");
    assert_eq!(&bytes[12..20], &(-2i64).to_le_bytes());
    assert_eq!(decode_tab_drag_payload(&bytes), Some(payload));
}

#[test]
fn native_tab_drag_uses_arrow_cursor_feedback() {
    assert_eq!(drag_feedback_result(DragCursorFeedback::Arrow, true), 0);
    assert_eq!(
        drag_feedback_result(DragCursorFeedback::System, true),
        DRAGDROP_S_USEDEFAULTCURSORS
    );
    assert_eq!(
        drag_feedback_result(DragCursorFeedback::Arrow, false),
        DRAGDROP_S_USEDEFAULTCURSORS
    );
}

#[test]
fn tab_target_tracking_records_hover_drop_and_leave_without_file_state() {
    let payload = TabDragPayload { process_id: 77, source_hwnd: 1, tab_id: 2 };
    let mut tracking = Some(begin_tracking(payload));
    track_tab_hover(&mut tracking, payload, 10, 400, 200);
    let point = TabDropPoint { target_hwnd: 10, screen_x: 400, screen_y: 200 };
    assert_eq!(tracking.as_ref().and_then(|value| value.hover), Some(point));
    track_tab_leave(&mut tracking);
    assert!(tracking
        .as_ref()
        .is_some_and(|value| value.hover.is_none() && value.dropped.is_none()));
    let other = TabDragPayload { tab_id: 3, ..payload };
    track_tab_drop(&mut tracking, other, 10, 400, 200);
    assert!(tracking.unwrap().dropped.is_none());
    track_tab_drop(&mut tracking, payload, 10, 400, 200);
    let result = tab_drag_result(tracking, true, 0);
    assert_eq!(result.dropped, Some(point));
    assert!(result.released_outside);
    assert!(!tab_drag_result(None, true, DROPEFFECT_MOVE).released_outside);
}

#[test]
fn inbound_allowed_effects_preserve_source_mask() {
    assert_eq!(allowed_effects(DROPEFFECT_NONE), 0);
    assert_eq!(allowed_effects(DROPEFFECT_COPY), ALLOW_COPY);
    assert_eq!(allowed_effects(DROPEFFECT_MOVE), ALLOW_MOVE);
    assert_eq!(allowed_effects(DROPEFFECT_LINK), ALLOW_LINK);
    assert_eq!(allowed_effects(ALL_EFFECTS), ALLOW_COPY | ALLOW_MOVE | ALLOW_LINK);
}

#[test]
fn outbound_effect_conversion_prefers_move_copy_then_link() {
    assert_eq!(DropEffect::from_native(DROPEFFECT_MOVE), DropEffect::Move);
    assert_eq!(DropEffect::from_native(DROPEFFECT_COPY), DropEffect::Copy);
    assert_eq!(DropEffect::from_native(DROPEFFECT_LINK), DropEffect::Link);
    assert_eq!(DropEffect::from_native(DROPEFFECT_NONE), DropEffect::Nothing);
    assert_eq!(
        DropEffect::from_native(DROPEFFECT_COPY | DROPEFFECT_MOVE),
        DropEffect::Move
    );
}

#[test]
fn outbound_drop_source_cancels_drops_and_continues_by_mouse_state() {
    assert_eq!(query_continue_drag(true, MK_LBUTTON), DRAGDROP_S_CANCEL);
    assert_eq!(query_continue_drag(false, 0), DRAGDROP_S_DROP);
    assert_eq!(query_continue_drag(false, MK_LBUTTON), 0);
    assert_eq!(query_continue_drag(false, MK_RBUTTON), 0);
}

#[test]
fn folder_row_hit_testing_prefers_folder_over_current_directory() {
    let snapshot = DropTargetSnapshot {
        current: Some(wide(r"C:\Current")),
        folder_rows: vec![FolderDropTarget {
            left: 10,
            top: 20,
            right: 110,
            bottom: 60,
            path: wide(r"C:\Current\Child"),
        }],
        quick_access_pin: None,
    };
    assert_eq!(
        snapshot.target_at(ScreenPoint { x: 50, y: 40 }),
        Some(DropTarget::Directory(wide(r"C:\Current\Child")))
    );
    assert_eq!(
        snapshot.target_at(ScreenPoint { x: 5, y: 5 }),
        Some(DropTarget::Directory(wide(r"C:\Current")))
    );
    assert_eq!(
        snapshot.target_at(ScreenPoint { x: 110, y: 40 }),
        Some(DropTarget::Directory(wide(r"C:\Current")))
    );
}

#[test]
fn quick_access_target_is_separate_and_accepts_one_source() {
    let snapshot = DropTargetSnapshot {
        current: Some(wide(r"C:\Current")),
        folder_rows: Vec::new(),
        quick_access_pin: Some(DropTargetRect { left: 0, top: 0, right: 100, bottom: 32 }),
    };
    assert_eq!(
        snapshot.target_at(ScreenPoint { x: 50, y: 16 }),
        Some(DropTarget::QuickAccessPin)
    );
    assert_eq!(
        negotiate_target_effect(&[wide(r"C:\Folder")], Some(&DropTarget::QuickAccessPin), 0),
        (DropEffect::Link, None)
    );
    assert!(negotiate_target_effect(
        &[wide(r"C:\One"), wide(r"C:\Two")],
        Some(&DropTarget::QuickAccessPin),
        0,
    )
    .1
    .is_some());
}

#[test]
fn effect_negotiation_matches_windows_defaults_and_modifiers() {
    let target = wide(r"C:\Target");
    let same = vec![wide(r"C:\Source\one.txt")];
    let other = vec![wide(r"D:\Source\one.txt")];
    assert_eq!(negotiate_effect(&same, Some(&target), 0), (DropEffect::Move, None));
    assert_eq!(negotiate_effect(&other, Some(&target), 0), (DropEffect::Copy, None));
    assert_eq!(
        negotiate_effect(&same, Some(&target), MK_CONTROL),
        (DropEffect::Copy, None)
    );
    assert_eq!(
        negotiate_effect(&other, Some(&target), MK_SHIFT),
        (DropEffect::Move, None)
    );
}

#[test]
fn effect_negotiation_rejects_unsafe_or_unsupported_targets() {
    let source = vec![wide(r"C:\Source")];
    assert_eq!(
        negotiate_effect(&source, Some(&wide(r"C:\Source\Child")), 0),
        (DropEffect::Nothing, Some("source_or_descendant"))
    );
    assert_eq!(
        negotiate_effect(&source, None, 0),
        (DropEffect::Nothing, Some("target_unavailable"))
    );
    assert_eq!(
        negotiate_effect(&source, Some(&wide(r"C:\Target")), MK_ALT),
        (DropEffect::Link, None)
    );
}

#[test]
fn drop_uses_tracked_right_button_after_button_release() {
    assert_eq!(drop_key_state(0, true) & MK_RBUTTON, MK_RBUTTON);
    assert_eq!(drop_key_state(0, false) & MK_RBUTTON, 0);
}

#[test]
fn same_folder_right_drop_allows_copy_and_link_but_not_move() {
    let paths = vec![wide(r"C:\Target\item.txt")];
    let target = wide(r"C:\Target");
    assert_eq!(
        negotiate_effect(&paths, Some(&target), MK_RBUTTON),
        (DropEffect::Copy, None)
    );
    assert_eq!(
        allowed_effects_for_target(&paths, &target, ALLOW_COPY | ALLOW_MOVE | ALLOW_LINK),
        ALLOW_COPY | ALLOW_LINK
    );
    assert_eq!(
        negotiate_effect(&paths, Some(&target), 0),
        (DropEffect::Nothing, Some("same_location"))
    );
}

#[test]
fn unc_volume_identity_uses_server_and_share() {
    assert!(same_volume(&wide(r"\\server\share\one"), &wide(r"\\SERVER\SHARE\two")));
    assert!(!same_volume(&wide(r"\\server\share\one"), &wide(r"\\server\other\two")));
}

#[test]
fn native_drop_registration_retries_until_each_window_has_a_real_handle() {
    assert_eq!(registration_action(0, 0), RegistrationAction::WaitForWindow);
    assert_eq!(registration_action(0, 101), RegistrationAction::Replace);
    assert_eq!(registration_action(101, 101), RegistrationAction::Keep);
    assert_eq!(registration_action(101, 202), RegistrationAction::Replace);
}

#[derive(Clone)]
struct RevokeProbe {
    hwnd: i64,
    calls: Arc<Mutex<Vec<i64>>>,
    succeeds: bool,
}

impl ExplicitRevoke for RevokeProbe {
    fn revoke(&mut self) -> bool {
        self.calls.lock().unwrap().push(self.hwnd);
        self.succeeds
    }
}

fn probe(hwnd: i64, calls: &Arc<Mutex<Vec<i64>>>) -> RevokeProbe {
    RevokeProbe { hwnd, calls: calls.clone(), succeeds: true }
}

#[test]
fn registration_store_revokes_each_window_at_most_once() {
    let calls = Arc::new(Mutex::new(Vec::new()));
    let mut registrations = RegistrationStore::new();
    registrations.insert(101, probe(101, &calls));
    registrations.insert(202, probe(202, &calls));
    assert!(registrations.revoke(101));
    assert!(!registrations.revoke(101));
    assert_eq!(registrations.len(), 1);
    registrations.revoke_all();
    registrations.revoke_all();
    let mut calls = calls.lock().unwrap().clone();
    calls.sort_unstable();
    assert_eq!(calls, [101, 202]);
    assert_eq!(registrations.len(), 0);
}

#[test]
fn shutdown_revokes_all_windows_once() {
    let calls = Arc::new(Mutex::new(Vec::new()));
    let mut registrations = RegistrationStore::new();
    registrations.insert(101, probe(101, &calls));
    registrations.insert(202, probe(202, &calls));
    assert!(registrations.contains(202));
    registrations.begin_shutdown();
    registrations.begin_shutdown();
    let mut observed = calls.lock().unwrap().clone();
    observed.sort_unstable();
    assert_eq!(observed, [101, 202]);
    assert_eq!(registrations.len(), 0);
    assert!(registrations.is_shutdown());
    let error = ensure_apartment(registrations.is_shutdown(), true).unwrap_err();
    assert_eq!(error.message, "drag-drop apartment is shutting down");
    assert_eq!(ensure_apartment(false, true).unwrap(), ApartmentNeed::Ready);
    assert_eq!(ensure_apartment(false, false).unwrap(), ApartmentNeed::Initialize);
}

#[test]
fn failed_revoke_is_attempted_only_once() {
    let calls = Arc::new(Mutex::new(Vec::new()));
    let mut registrations = RegistrationStore::new();
    registrations.insert(
        101,
        RevokeProbe { hwnd: 101, calls: calls.clone(), succeeds: false },
    );
    assert!(!registrations.revoke(101));
    registrations.begin_shutdown();
    assert_eq!(calls.lock().unwrap().as_slice(), [101]);
    assert!(registrations.is_empty());
}

#[test]
fn a_registration_is_taken_out_once() {
    let calls = Arc::new(Mutex::new(Vec::new()));
    let mut registrations = RegistrationStore::new();
    registrations.insert(101, probe(101, &calls));
    registrations.insert(202, probe(202, &calls));
    registrations.insert(303, probe(303, &calls));
    assert_eq!(registrations.take(202).map(|taken| taken.hwnd), Some(202));
    assert!(registrations.take(202).is_none());
    assert_eq!(registrations.take(303).map(|taken| taken.hwnd), Some(303));
    assert!(registrations.contains(101) && !registrations.contains(202));
    assert!(calls.lock().unwrap().is_empty());
}

#[test]
fn dropping_registration_store_never_revokes_windows() {
    let calls = Arc::new(Mutex::new(Vec::new()));
    {
        let mut registrations = RegistrationStore::new();
        registrations.insert(101, probe(101, &calls));
    }
    assert!(calls.lock().unwrap().is_empty());
}

#[test]
fn paths_under_the_user_temp_directory_are_ephemeral() {
    let temp = wide(r"C:\Users\me\AppData\Local\Temp\");
    assert!(is_under_user_temp(&wide(r"C:\Users\me\AppData\Local\Temp\scratch\demo.jpg"), &temp));
    assert!(is_under_user_temp(&wide(r"C:\users\ME\AppData\Local\Temp\7zEABC\demo.jpg"), &temp));
    assert!(!is_under_user_temp(&wide(r"D:\elsewhere\demo.jpg"), &temp));
    assert!(!is_under_user_temp(&temp, &temp));
    assert!(!is_ephemeral_drop(&[], &temp));
    assert!(!is_ephemeral_drop(
        &[wide(r"C:\Users\me\AppData\Local\Temp\a"), wide(r"D:\b")],
        &temp
    ));
}

#[test]
fn a_temporary_drop_is_copied_aside_and_reported_as_a_copy() {
    let temp = wide(r"C:\Temp");
    let source = vec![wide(r"C:\Temp\scratch-drop\demo.jpg")];
    let mut gesture = DropGesture::new();
    enter(&mut gesture, &source, ALL_EFFECTS, MK_LBUTTON);
    let context = match gesture.begin_drop() {
        DropPlan::Data(context) => context,
        _ => panic!("files were dragged"),
    };
    let (shown, directory) =
        gesture.staged_copy_target(&context, POINT, &memory_target()).unwrap();
    assert_eq!(shown, DropEffect::Copy);
    assert_eq!(gesture.ephemeral_sources(&context, None, &temp), Some(source.clone()));
    let root = wide(r"C:\Temp\asterfiles-incoming-1-0");
    let staged = StagedDrop {
        root: root.clone(),
        paths: vec![wide(r"C:\Temp\asterfiles-incoming-1-0\demo.jpg")],
    };
    let outcome = gesture.finish_staged_drop(&context, Some(staged), shown, directory, POINT);
    let intent = outcome.intent.unwrap();
    assert_eq!(outcome.effect, DropEffect::Copy);
    assert_eq!(intent.effect, DropEffect::Copy);
    assert_eq!(intent.paths, vec![wide(r"C:\Temp\asterfiles-incoming-1-0\demo.jpg")]);
    assert_eq!(intent.allowed_effects, ALLOW_COPY | ALLOW_MOVE);
    assert_eq!(intent.staging_root, Some(root));
}

#[test]
fn a_copy_that_failed_or_was_replaced_is_turned_away() {
    let source = vec![wide(r"C:\Temp\a.jpg")];
    let mut gesture = DropGesture::new();
    enter(&mut gesture, &source, ALL_EFFECTS, MK_LBUTTON);
    let context = match gesture.begin_drop() {
        DropPlan::Data(context) => context,
        _ => panic!("files were dragged"),
    };
    assert_eq!(
        gesture.ephemeral_sources(&context, Some(vec![wide(r"D:\a.jpg")]), &wide(r"C:\Temp")),
        None
    );
    let outcome =
        gesture.finish_staged_drop(&context, None, DropEffect::Copy, wide(r"C:\T"), POINT);
    assert_eq!(outcome.effect, DropEffect::Nothing);
    assert!(outcome.intent.is_none());
}

#[test]
fn data_that_must_be_copied_goes_only_into_directories() {
    assert_eq!(
        incoming_copy_effect(Some(&DropTarget::QuickAccessPin), ALLOW_COPY),
        (DropEffect::Nothing, Some("unsupported_data"))
    );
    assert_eq!(
        incoming_copy_effect(None, ALLOW_COPY),
        (DropEffect::Nothing, Some("target_unavailable"))
    );
    let directory = DropTarget::Directory(wide(r"C:\T"));
    assert_eq!(
        incoming_copy_effect(Some(&directory), ALLOW_LINK),
        (DropEffect::Nothing, Some("effect_not_offered"))
    );
    assert_eq!(
        incoming_copy_effect(Some(&directory), ALLOW_MOVE),
        (DropEffect::Move, None)
    );
}

#[test]
fn files_are_staged_below_their_common_parent() {
    let paths = vec![wide(r"C:\Temp\x\a.txt"), wide(r"C:\Temp\x\y\b.txt")];
    assert_eq!(common_parent(&paths), Some(wide(r"C:\Temp\x")));
    let relatives = relatives_under_common_parent(&paths).unwrap();
    assert_eq!(relatives, vec![wide("a.txt"), wide(r"y\b.txt")]);
    assert_eq!(
        top_level_paths(&wide(r"C:\S"), &[wide("a.txt"), wide(r"y\b.txt"), wide(r"y\c.txt")]),
        vec![wide(r"C:\S\a.txt"), wide(r"C:\S\y")]
    );
    let error = relatives_under_common_parent(&[]).unwrap_err();
    assert_eq!(error.kind, ErrorKind::InvalidInput);
    assert_eq!(error.message, "temporary drop has no common parent");
}

#[test]
fn only_own_scratch_directories_are_deleted() {
    let temp = wide(r"C:\Temp");
    assert_eq!(incoming_root_name(42, 7), "asterfiles-incoming-42-7");
    assert!(owns_drop_staging(&wide(r"C:\Temp\asterfiles-incoming-42-7"), &temp));
    assert!(!owns_drop_staging(&wide(r"C:\Temp\other"), &temp));
    assert!(!owns_drop_staging(&wide(r"D:\asterfiles-incoming-42-7"), &temp));
}

#[test]
fn names_of_virtual_files_stay_below_their_directory() {
    let relative = |name: &str| safe_relative(&name.chars().collect::<Vec<_>>());
    assert_eq!(relative(r"textures\wood.png"), Some(wide(r"textures\wood.png")));
    assert_eq!(relative(r"\a/./b\"), Some(wide(r"a\b")));
    assert_eq!(relative(r"..\evil"), None);
    assert_eq!(relative(r"C:\evil"), None);
    assert_eq!(relative(r"\"), None);
}

fn descriptor(name: &str, directory: bool) -> Vec<u8> {
    let mut bytes = vec![0u8; 592];
    if directory {
        bytes[0..4].copy_from_slice(&4u32.to_le_bytes());
        bytes[36..40].copy_from_slice(&0x10u32.to_le_bytes());
    }
    for (index, unit) in name.encode_utf16().enumerate() {
        bytes[72 + 2 * index..74 + 2 * index].copy_from_slice(&unit.to_le_bytes());
    }
    bytes
}

#[test]
fn lists_of_virtual_files_are_read() {
    let mut bytes = 2u32.to_le_bytes().to_vec();
    bytes.extend(descriptor("demo.jpg", false));
    bytes.extend(descriptor("textures", true));
    let entries = parse_descriptors(&bytes, true).unwrap();
    assert_eq!(entries.len(), 2);
    assert_eq!(entries[0].relative, wide("demo.jpg"));
    assert!(!entries[0].is_dir);
    assert!(entries[1].is_dir);
    assert_eq!(
        parse_descriptors(&bytes[..3], true).unwrap_err().message,
        "virtual file list is truncated"
    );
    assert!(parse_descriptors(&bytes[..700], true).is_err());
}

#[test]
fn outbound_drags_need_files_and_an_effect() {
    let paths = vec![wide(r"C:\a")];
    let formats = outbound_formats(&paths, DropEffect::Move, 0xC123).unwrap();
    assert_eq!(formats[0].0, CF_HDROP);
    assert_eq!(formats[1], (0xC123, vec![2, 0, 0, 0]));
    assert_eq!(
        outbound_formats(&[], DropEffect::Move, 1).unwrap_err().message,
        "outbound drag file list is empty"
    );
    assert_eq!(
        outbound_formats(&paths, DropEffect::Nothing, 1).unwrap_err().message,
        "outbound drag preferred effect is unavailable"
    );
    assert_eq!(
        outbound_formats(&[vec![]], DropEffect::Copy, 1).unwrap_err().message,
        "invalid outbound drag path"
    );
}

#[test]
fn the_effect_that_the_target_reports_counts_first() {
    let result = outbound_result(true, Some(DropEffect::Copy), DROPEFFECT_MOVE);
    assert_eq!(result.effect, DropEffect::Copy);
    assert!(result.performed_effect_reported);
    assert_eq!(outbound_result(true, None, DROPEFFECT_MOVE).effect, DropEffect::Move);
    assert_eq!(outbound_result(false, None, DROPEFFECT_MOVE).effect, DropEffect::Nothing);
}

#[test]
fn a_data_object_takes_back_only_what_it_may() {
    let mut formats = OutboundFormats {
        fixed: vec![(CF_HDROP, vec![1])],
        added: vec![],
        performed_format: 0xC124,
        performed_effect: None,
        accept_extra_set_data: false,
    };
    assert_eq!(formats.find_data(&format_etc(CF_HDROP)), DataSource::Fixed(0));
    assert_eq!(formats.find_data(&format_etc(9)), DataSource::Unsupported);
    assert_eq!(
        formats.set_data(format_etc(0xC124), DROPEFFECT_MOVE),
        SetDataAction::ReportsEffect
    );
    assert_eq!(formats.performed_effect, Some(DropEffect::Move));
    assert_eq!(formats.set_data(format_etc(9), 0), SetDataAction::Refused);
    formats.accept_extra_set_data = true;
    assert_eq!(formats.set_data(format_etc(9), 0), SetDataAction::Appends);
    assert_eq!(formats.set_data(format_etc(9), 0), SetDataAction::Replaces(0));
    assert_eq!(formats.find_data(&format_etc(9)), DataSource::Added(0));
}

#[test]
fn every_offered_format_has_its_data() {
    let mut formats = OutboundFormats {
        fixed: vec![(CF_HDROP, vec![1]), (0xC123, vec![2])],
        added: vec![],
        performed_format: 0xC124,
        performed_effect: None,
        accept_extra_set_data: true,
    };
    let mut streamed = format_etc(9);
    streamed.medium = TYMED_ISTREAM as u32;
    assert_eq!(formats.set_data(streamed, 0), SetDataAction::Appends);
    let offered = formats.offered_formats();
    assert_eq!(offered, vec![format_etc(CF_HDROP), format_etc(0xC123), streamed]);
    let sources: Vec<DataSource> =
        offered.iter().map(|format| formats.find_data(format)).collect();
    assert_eq!(
        sources,
        vec![DataSource::Fixed(0), DataSource::Fixed(1), DataSource::Added(0)]
    );
}

fn card(width_px: u32, height_px: u32, grab_x_px: i32) -> TabDragImage {
    TabDragImage {
        title: "tab".into(),
        icon: None,
        width_px,
        height_px,
        grab_x_px,
        dark: true,
        active: false,
    }
}

#[test]
fn tab_cards_are_readable_and_held_within_their_width() {
    assert_eq!(card_size(&card(10, 10, 0)), (80, 34));
    assert_eq!(card_size(&card(200, 40, 0)), (200, 40));
    assert_eq!(grab_point(&card(200, 40, 500)), (199, 20));
    assert_eq!(grab_point(&card(200, 40, -1)), (0, 20));
    assert_eq!(card_colours(true, false), (0x003e3b3a, 0x00f2f2f2));
    assert_eq!(card_colours(false, true), (0x00f5f2f1, 0x00383130));
}

#[test]
fn icons_are_laid_over_cards_by_their_alpha() {
    let place = IconPlace {
        card_width: 2,
        card_height: 1,
        x: 1,
        y: 0,
        width: 1,
        height: 1,
        icon_width: 1,
        icon_height: 1,
    };
    let mut pixels = vec![100; 8];
    composite_icon(&mut pixels, place, &[255, 0, 10, 51]);
    // One fifth of the icon, in the byte order of the card.
    assert_eq!(pixels, vec![100, 100, 100, 100, 82, 80, 131, 100]);
}

#[test]
fn drag_numbers_are_those_of_the_system() {
    assert_eq!(MK_CONTROL, windows_sys::Win32::System::SystemServices::MK_CONTROL);
    assert_eq!(MK_RBUTTON, windows_sys::Win32::System::SystemServices::MK_RBUTTON);
    assert_eq!(DROPEFFECT_LINK, windows_sys::Win32::System::Ole::DROPEFFECT_LINK);
    assert_eq!(DRAGDROP_S_DROP, windows_sys::Win32::Foundation::DRAGDROP_S_DROP);
    assert_eq!(DRAGDROP_S_CANCEL, windows_sys::Win32::Foundation::DRAGDROP_S_CANCEL);
}

fn byte_descriptor(name: &[u8]) -> Vec<u8> {
    let mut bytes = vec![0; 332];
    bytes[72..72 + name.len()].copy_from_slice(name);
    bytes
}

#[test]
fn names_in_bytes_are_utf8_or_one_character_each() {
    let mut bytes = 2u32.to_le_bytes().to_vec();
    bytes.extend(byte_descriptor("图片.png".as_bytes()));
    bytes.extend(byte_descriptor(&[b'a', 0xe9]));
    let entries = parse_descriptors(&bytes, false).unwrap();
    assert_eq!(entries[0].relative, wide("图片.png"));
    assert_eq!(entries[1].relative, wide("aé"));
}

#[test]
fn virtual_files_are_read_from_the_best_list() {
    let formats = virtual_formats(1, 2, 3);
    assert_eq!(virtual_formats(0, 2, 3), None);
    assert_eq!(virtual_formats(1, 2, 0), None);
    let list = |name: &str| {
        let mut bytes = 1u32.to_le_bytes().to_vec();
        bytes.extend(descriptor(name, false));
        Some(Ok(bytes))
    };
    let narrow = || {
        let mut bytes = 1u32.to_le_bytes().to_vec();
        bytes.extend(byte_descriptor(b"narrow.txt"));
        Some(Ok(bytes))
    };
    let found = read_virtual_entries(formats, list("wide.txt"), narrow());
    assert_eq!(virtual_file_names(&found), Some(vec![wide("wide.txt")]));
    let found = read_virtual_entries(formats, None, narrow());
    assert_eq!(virtual_file_names(&found), Some(vec![wide("narrow.txt")]));
    let missing = read_virtual_entries(virtual_formats(1, 0, 3), None, narrow()).unwrap_err();
    assert_eq!(missing.kind, ErrorKind::NotFound);
    let none = read_virtual_entries(None, None, None);
    assert_eq!(virtual_file_names(&none), None);
    assert_eq!(none.unwrap_err().message, "virtual file format is unavailable");
}

#[test]
fn virtual_files_are_written_below_the_staging_folder() {
    let mut bytes = 3u32.to_le_bytes().to_vec();
    bytes.extend(descriptor("demo.jpg", false));
    bytes.extend(descriptor("textures", true));
    bytes.extend(descriptor(r"textures\wood.png", false));
    let entries = parse_descriptors(&bytes, true).unwrap();
    assert!(check_virtual(&entries).is_ok());
    assert_eq!(check_virtual(&[]).unwrap_err().message, "virtual drop is empty");
    let plan = materialize_virtual(&wide(r"C:\T\in"), &entries);
    assert_eq!(plan.paths, vec![wide(r"C:\T\in\demo.jpg"), wide(r"C:\T\in\textures")]);
    assert_eq!(plan.steps[0].folders, Some(wide(r"C:\T\in")));
    assert_eq!(plan.steps[0].contents, Some(0));
    assert_eq!(plan.steps[1].folders, Some(wide(r"C:\T\in\textures")));
    assert_eq!(plan.steps[1].contents, None);
    assert_eq!(plan.steps[2].destination, wide(r"C:\T\in\textures\wood.png"));
    assert_eq!(plan.steps[2].contents, Some(2));
}

#[test]
fn files_that_do_not_last_are_copied_with_their_folders() {
    let sources = vec![wide(r"C:\T\x\a.txt"), wide(r"C:\T\x\sub\b.txt")];
    let plan = snapshot_ephemeral(&wide(r"D:\in"), &sources).unwrap();
    assert_eq!(plan.copies[1].source, sources[1]);
    assert_eq!(plan.copies[1].destination, wide(r"D:\in\sub\b.txt"));
    assert_eq!(plan.paths, vec![wide(r"D:\in\a.txt"), wide(r"D:\in\sub")]);
    assert_eq!(snapshot_ephemeral(&wide("r"), &[]).unwrap_err().kind, ErrorKind::InvalidInput);
    assert_eq!(stage_drop(Ok(plan.paths.clone())).unwrap(), plan.paths);
    assert_eq!(stage_drop(Ok(vec![])).unwrap_err().message, "staged drop is empty");
}

#[test]
fn contents_are_streams_or_memory() {
    assert_eq!(contents_medium(TYMED_ISTREAM as u32, true).unwrap(), ContentsMedium::Stream);
    assert!(contents_medium(TYMED_ISTREAM as u32, false).is_err());
    assert_eq!(contents_medium(TYMED_HGLOBAL as u32, false).unwrap(), ContentsMedium::Memory);
    assert!(contents_medium(2, false).is_err());
}

#[test]
fn only_tabs_of_this_process_are_followed() {
    let payload = TabDragPayload { process_id: 7, source_hwnd: 1, tab_id: 2 };
    assert_eq!(own_tab(Some(payload), 7), Some(payload));
    assert_eq!(own_tab(Some(payload), 8), None);
    assert_eq!(own_tab(None, 7), None);
}

#[test]
fn a_card_holds_its_icon_and_title_and_is_opaque() {
    let place = icon_place((200, 36), 32, 24);
    assert_eq!((place.x, place.y, place.width, place.height), (12, 10, 16, 16));
    assert_eq!((place.card_width, place.card_height), (200, 36));
    assert_eq!((place.icon_width, place.icon_height), (32, 24));
    assert_eq!(icon_place((80, 10), 1, 1).y, 0);
    assert_eq!(title_area((200, 36)), TitleArea { left: 34, top: 0, right: 190, bottom: 36 });
    let mut pixels = vec![1, 2, 3, 4, 5, 6, 7, 8, 9, 10, 11];
    make_opaque(&mut pixels);
    assert_eq!(pixels, [1, 2, 3, 255, 5, 6, 7, 255, 9, 10, 11]);
}

#[test]
fn dragged_files_are_named_in_the_parent_that_they_share() {
    assert_eq!(shell_data_object(&[true, true]), ShellParent::OfTheFirst);
    assert_eq!(shell_data_object(&[true, false]), ShellParent::Desktop);
    assert_eq!(shell_data_object(&[]), ShellParent::Desktop);
    assert!(shell_parent(true, true).is_ok());
    let error = shell_parent(true, false).unwrap_err();
    assert_eq!(error.message, "unable to resolve outbound Shell parent");
    assert!(shell_parent(false, true).is_err());
}

#[test]
fn bytes_that_hold_a_tab_are_its_encoding() {
    let mut bytes = b"ASTFTAB1".to_vec();
    bytes.extend(1..=16u8);
    let payload = decode_tab_drag_payload(&bytes).unwrap();
    assert_eq!(encode_tab_drag_payload(payload), bytes);
}

#[test]
fn a_window_shows_no_targets_at_first() {
    let snapshot = DropTargetSnapshot::default();
    assert_eq!(snapshot.target_at(ScreenPoint { x: 0, y: 0 }), None);
    let store: RegistrationStore<RevokeProbe> = RegistrationStore::default();
    assert!(store.is_empty() && !store.is_shutdown());
}
