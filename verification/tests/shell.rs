use asterfiles::errors::{ErrorKind, IoError};
use asterfiles::platform::{KnownLocation, KnownLocationKind};
use asterfiles::windows::address_path::ExternalLaunchPath;
use asterfiles::windows::drives::{is_low_space, DriveCapacity};
use asterfiles::windows::free_name::NameStep;
use asterfiles::windows::libraries::{
    enumerate, folder_path, ItemRead, LibraryEnumeration, LibraryId, LibraryItem, LibrarySource,
    SourceItem,
};
use asterfiles::windows::quick_access::{
    contains, paths_equal, pin, pin_accepts, pin_finish, unpin, unpin_finish, ChangeResult,
};
use asterfiles::windows::quick_menu_window::{
    accent_state, acrylic_gradient_color, attach_owner, backdrop_type, cancel_prepared_window,
    check_popup, client_point_to_screen, compositor_result, focus_window, foreground_belongs_to, plan_styles, popup_style,
    popup_window_proc, prepare_window, take_pending_window_owner, work_area_for_point,
    PendingWindowOwner, PopupReply, MA_NOACTIVATE,
};
use asterfiles::windows::network::stream::ExitReport;
use asterfiles::windows::shell_icons::{
    bitmap_size, bitmap_to_rgba, fallback_attributes, grid_from_cache, grid_from_icon, grid_from_provider,
    icon_buffer_len, shell_icon_rgba_at_size, thumbnail_flags, thumbnail_from, GridImageSource,
    GridStep, ShellIconRgba, ShellTypeIconKey, ThumbnailSource,
};
use asterfiles::windows::shell_select_probe::{
    case_result, check_delivery, check_executable, check_thread, probe_cases, probe_report,
    receiver_report, receiver_step, selection_delay, sends_selection, window_step, WaitStep,
};
use asterfiles::windows::shell_select_trap::{
    begin_select_followup, begin_select_followup_for_ipc, ends_wait, enrich_folder_open_selects,
    query_service, selected_item, trap_candidate, Followup, ServiceAnswer, TrapRegistrations, IID_OLE_WINDOW,
    IID_SHELL_BROWSER, SID_TOP_LEVEL_BROWSER,
};
use asterfiles::windows::shortcut::{shortcut_candidate, shortcut_destination, wide as shell_wide};
use windows_sys::Win32::Graphics::Dwm::{DWMSBT_NONE, DWMSBT_TRANSIENTWINDOW};
use windows_sys::Win32::UI::WindowsAndMessaging::{
    GWL_EXSTYLE, GWL_STYLE, WM_MOUSEACTIVATE, WM_NCDESTROY, WM_STYLECHANGING,
    WM_WINDOWPOSCHANGING, WS_CAPTION, WS_EX_APPWINDOW, WS_EX_NOACTIVATE, WS_EX_TOOLWINDOW,
    WS_MAXIMIZEBOX, WS_MINIMIZEBOX, WS_POPUP, WS_SYSMENU,
};

fn wide(text: &str) -> Vec<u16> {
    text.encode_utf16().collect()
}

fn pinned(label: &str, path: &str) -> KnownLocation {
    KnownLocation { kind: KnownLocationKind::Pinned, label: label.into(), path: wide(path) }
}

#[test]
fn low_space_threshold_is_strictly_below_ten_percent() {
    assert!(!is_low_space(1_000, 100));
    assert!(is_low_space(1_000, 99));
}

#[test]
fn threshold_calculation_does_not_overflow_u64() {
    assert!(!is_low_space(u64::MAX, u64::MAX / 10 + 1));
    assert!(is_low_space(u64::MAX, u64::MAX / 10 - 1));
}

#[test]
fn drives_without_capacity_are_not_low_on_space() {
    assert!(!is_low_space(0, 0));
    assert!(!is_low_space(100, 200));
    assert!(DriveCapacity { total: 100, available: 9 }.is_low_space());
}

#[test]
fn windows_paths_compare_without_losing_original_identity() {
    let original = wide(r"C:\Users\LiuYang\项目");
    assert!(paths_equal(&original, &wide(r"c:\users\liuyang\项目")));
    let item = pinned("项目", r"C:\Users\LiuYang\项目");
    assert!(contains(&[item], &original));
}

#[test]
fn duplicate_detection_uses_shell_projection() {
    let items = [pinned("Assets", r"D:\Assets")];
    assert!(contains(&items, &wide(r"d:\assets")));
    assert!(!contains(&items, &wide(r"D:\Other")));
}

#[test]
fn pinning_is_confirmed_by_the_shell() {
    let items = [pinned("Assets", r"D:\Assets")];
    assert_eq!(pin(&items, &wide(r"d:\assets")), Some(ChangeResult::Unchanged));
    assert_eq!(pin(&items, &wide(r"D:\New")), None);
    assert_eq!(pin_finish(&items, &wide(r"D:\Assets")).unwrap(), ChangeResult::Changed);
    assert_eq!(
        pin_finish(&items, &wide(r"D:\New")).unwrap_err().message,
        "Windows Shell did not pin the folder"
    );
    assert_eq!(
        pin_accepts(false).unwrap_err().message,
        "Quick access accepts folders only"
    );
    assert_eq!(unpin(&items, &wide(r"d:\ASSETS")), Some(wide(r"D:\Assets")));
    assert_eq!(unpin(&items, &wide(r"D:\New")), None);
    assert!(unpin_finish(&items, &wide(r"D:\Assets")).is_err());
    assert_eq!(unpin_finish(&[], &wide(r"D:\Assets")).unwrap(), ChangeResult::Changed);
}

#[test]
fn type_icon_keys_match_for_local_and_unc_entries() {
    for extension in ["blend", "fbx", "obj"] {
        assert_eq!(
            ShellTypeIconKey::for_entry(&wide(&format!(r"C:\local\asset.{extension}")), false),
            ShellTypeIconKey::for_entry(
                &wide(&format!(r"\\server\share\asset.{extension}")),
                false
            ),
        );
    }
    assert_eq!(
        ShellTypeIconKey::for_entry(&wide(r"C:\local\asset.BLEND"), false),
        ShellTypeIconKey::for_entry(&wide(r"\\server\share\asset.blend"), false),
    );
    assert_eq!(
        ShellTypeIconKey::for_entry(&wide("README"), false),
        ShellTypeIconKey::GenericFile
    );
    assert_eq!(
        ShellTypeIconKey::for_entry(&wide("folder.txt"), true),
        ShellTypeIconKey::Directory
    );
}

#[test]
fn type_icons_are_asked_for_by_a_made_up_name() {
    let key = ShellTypeIconKey::for_entry(&wide("a.TXT"), false);
    assert_eq!(key.query_path(), wide("asterfiles.txt"));
    assert_eq!(key.lookup(), (wide("asterfiles.txt"), 0x80));
    assert_eq!(ShellTypeIconKey::Directory.lookup(), (wide("asterfiles-folder"), 0x10));
    assert_eq!(fallback_attributes(&wide(r"C:\a.txt")), 0x80);
    assert_eq!(fallback_attributes(&wide(r"C:\folder")), 0x10);
}

#[test]
fn issue_98_sized_icon_rejects_invalid_dimensions_before_shell_access() {
    for size in [0, i32::MAX as u32 + 1, u32::MAX] {
        let error = shell_icon_rgba_at_size(size).unwrap_err();
        assert_eq!(error.kind, ErrorKind::InvalidInput);
    }
    assert_eq!(shell_icon_rgba_at_size(48).unwrap(), 48);
}

#[test]
fn converts_bgra_pixels_to_rgba() {
    let icon = ShellIconRgba::from_bgra(2, 1, vec![1, 2, 3, 4, 10, 20, 30, 40]).unwrap();
    assert_eq!(icon.pixels, vec![3, 2, 1, 4, 30, 20, 10, 40]);
}

#[test]
fn rejects_an_invalid_pixel_buffer_length() {
    let error = ShellIconRgba::from_bgra(2, 2, vec![0; 4]).unwrap_err();
    assert!(error.message.contains("expected 16"));
}

#[test]
fn bitmaps_may_stand_on_their_head() {
    assert_eq!(bitmap_size(1, 4, -3), Some((4, 3)));
    assert_eq!(bitmap_size(0, 4, 3), None);
    assert_eq!(bitmap_size(1, 0, 3), None);
    assert_eq!(icon_buffer_len(16, 16).unwrap(), 1024);
    assert!(icon_buffer_len(0, 16).is_err());
}

#[test]
fn grid_images_fall_back_from_thumbnail_to_icon() {
    let icon = |side| ShellIconRgba::from_bgra(side, side, vec![0; (side * side * 4) as usize]).unwrap();
    let small = thumbnail_from(icon(1), true);
    assert_eq!(small.source, ThumbnailSource::Cache);
    assert!(matches!(grid_from_cache(Some(small.clone()), 2), GridStep::AskProvider));
    assert!(matches!(grid_from_cache(None, 1), GridStep::AskProvider));
    match grid_from_cache(Some(small), 1) {
        GridStep::Ready(image) => {
            assert_eq!(image.source, GridImageSource::Thumbnail(ThumbnailSource::Cache))
        }
        _ => panic!("the cached thumbnail is large enough"),
    }
    let failure = IoError::new(ErrorKind::Other, "no handler");
    match grid_from_provider(Err(failure.clone())) {
        GridStep::AskIcon(reason) => assert_eq!(reason, "no handler"),
        _ => panic!("there is no thumbnail"),
    }
    let image = grid_from_icon("no handler".into(), Ok(icon(2))).unwrap();
    assert_eq!(image.source, GridImageSource::SystemIcon);
    assert_eq!(image.thumbnail_error, Some("no handler".into()));
    assert_eq!(
        grid_from_icon("no handler".into(), Err(failure)).unwrap_err().message,
        "Shell thumbnail unavailable: no handler; system icon unavailable: no handler"
    );
    assert_ne!(thumbnail_flags(true), thumbnail_flags(false));
}

#[test]
fn quick_menu_backdrop_setting_maps_to_transient_or_none() {
    assert_eq!(backdrop_type(true), DWMSBT_TRANSIENTWINDOW);
    assert_eq!(backdrop_type(false), DWMSBT_NONE);
    assert_eq!(acrylic_gradient_color(true, 60), 0x9920_2020);
    assert_eq!(acrylic_gradient_color(false, 60), 0x99d3_d3d3);
    assert_eq!(acrylic_gradient_color(true, 0), 0x0120_2020);
    assert_eq!(acrylic_gradient_color(false, 100), 0xffd3_d3d3);
    assert_eq!(accent_state(true), 4);
    assert_eq!(accent_state(false), 0);
}

#[test]
fn quick_menu_popup_preserves_styles_across_backend_rewrites() {
    let frame = WS_CAPTION | WS_SYSMENU | WS_MINIMIZEBOX | WS_MAXIMIZEBOX;
    let style = popup_style(GWL_STYLE, frame | WS_POPUP);
    assert_eq!(style & frame, 0);
    assert_ne!(style & WS_POPUP, 0);
    let extended = popup_style(GWL_EXSTYLE, WS_EX_APPWINDOW);
    assert_eq!(extended & WS_EX_APPWINDOW, 0);
    assert_eq!(
        extended & (WS_EX_NOACTIVATE | WS_EX_TOOLWINDOW),
        WS_EX_NOACTIVATE | WS_EX_TOOLWINDOW
    );
    assert_eq!(popup_style(GWL_EXSTYLE, extended), extended);
    let plan = plan_styles(style as i64, WS_EX_APPWINDOW as i64);
    assert_eq!(plan.style, None);
    assert_eq!(plan.extended, Some(extended as i64));
}

#[test]
fn quick_menu_popup_mouse_activation_keeps_click_delivery() {
    let result = popup_window_proc(WM_MOUSEACTIVATE, false);
    assert_eq!(result, PopupReply::Answer(MA_NOACTIVATE));
    assert_eq!(
        MA_NOACTIVATE,
        i64::from(windows_sys::Win32::UI::WindowsAndMessaging::MA_NOACTIVATE)
    );
    assert_eq!(popup_window_proc(WM_STYLECHANGING, true), PopupReply::Restyle);
    assert_eq!(popup_window_proc(WM_STYLECHANGING, false), PopupReply::Pass);
    assert_eq!(popup_window_proc(WM_WINDOWPOSCHANGING, true), PopupReply::KeepInactive);
    assert_eq!(popup_window_proc(WM_NCDESTROY, false), PopupReply::Detach);
}

#[test]
fn a_prepared_owner_is_handed_out_once() {
    let mut pending = PendingWindowOwner { owner: 0 };
    assert_eq!(take_pending_window_owner(&mut pending), None);
    prepare_window(&mut pending, 7);
    assert_eq!(take_pending_window_owner(&mut pending), Some(7));
    assert_eq!(take_pending_window_owner(&mut pending), None);
    prepare_window(&mut pending, 8);
    cancel_prepared_window(&mut pending);
    assert_eq!(take_pending_window_owner(&mut pending), None);
}

#[test]
fn popups_need_windows_that_exist() {
    assert!(attach_owner(1, 2, true, true).is_ok());
    assert_eq!(attach_owner(0, 2, true, true).unwrap_err().kind, ErrorKind::InvalidInput);
    assert_eq!(attach_owner(1, 2, true, false).unwrap_err().kind, ErrorKind::NotFound);
    assert_eq!(check_popup(1, false).unwrap_err().message, "popup window was destroyed");
    assert!(compositor_result("DwmFlush", 0).is_ok());
    assert_eq!(
        compositor_result("DwmFlush", 0x80004005_u32 as i32).unwrap_err().message,
        "DwmFlush failed: 0x80004005"
    );
    let area = work_area_for_point(10, 20, 110, 220);
    assert_eq!((area.x, area.y, area.width, area.height), (10, 20, 100, 200));
    assert!(foreground_belongs_to(1, &[5], &[9, 5]));
    assert!(!foreground_belongs_to(1, &[5], &[9, 6]));
    assert!(!foreground_belongs_to(1, &[5], &[0, 5]));
}

#[test]
fn shortcut_names_use_windows_keep_both_suffix() {
    let root = wide(r"C:\links");
    let source = wide(r"C:\Docs\Report.txt");
    match shortcut_destination(&root, &source, &[]).unwrap() {
        NameStep::Probe(path) => assert_eq!(path, wide(r"C:\links\Report.lnk")),
        NameStep::Free(_) => panic!("nothing is known of the first name"),
    }
    match shortcut_destination(&root, &source, &[true, false]).unwrap() {
        NameStep::Free(path) => assert_eq!(path, wide(r"C:\links\Report (2).lnk")),
        NameStep::Probe(_) => panic!("the second name is free"),
    }
    assert!(shortcut_destination(&root, &wide(r"C:\"), &[]).is_err());
    assert_eq!(shortcut_candidate(&root, &wide("a"), 3), wide(r"C:\links\a (3).lnk"));
    assert_eq!(shell_wide(&[]).unwrap_err().message, "empty shortcut path");
    assert_eq!(shell_wide(&[0]).unwrap_err().message, "shortcut path contains NUL");
}

#[test]
fn library_id_preserves_non_ascii_shell_identity() {
    let identity = wide(r"::{031E4825-7B94-4DC3-B131-E946B44C8DD5}\项目.library-ms");
    let id = LibraryId::new(identity.clone());
    assert_eq!(id.as_os_str(), identity.as_slice());
}

#[test]
fn owned_model_keeps_same_named_sources_distinct() {
    let sources = [
        LibrarySource {
            shell_identity: wide(r"C:\first\same.txt"),
            path: Some(wide(r"C:\first\same.txt")),
        },
        LibrarySource {
            shell_identity: wide(r"D:\second\same.txt"),
            path: Some(wide(r"D:\second\same.txt")),
        },
    ];
    assert_ne!(sources[0].shell_identity, sources[1].shell_identity);
    assert_ne!(sources[0].path, sources[1].path);
}

fn library(name: &str, pinned: bool) -> LibraryItem {
    LibraryItem {
        shell_identity: Ok(wide(name)),
        pinned: Ok(pinned),
        display_name: Ok(wide(name)),
        definition_path: None,
        sources: Ok(vec![SourceItem {
            path: Some(wide(r"C:\Docs")),
            shell_identity: Some(wide(r"C:\Docs")),
        }]),
        default_save_path: Some(vec![]),
    }
}

fn read(item: LibraryItem) -> ItemRead {
    ItemRead { fetched: 1, error: None, item: Some(item) }
}

#[test]
fn libraries_are_enumerated_in_the_order_of_the_shell() {
    let mut broken = library("Broken", true);
    broken.display_name = Err(IoError::new(ErrorKind::Other, "no name"));
    let end = ItemRead { fetched: 0, error: None, item: None };
    let found = enumerate(vec![
        read(library("Documents", true)),
        read(library("Hidden", false)),
        read(broken),
        read(library("Music", true)),
        end,
        read(library("Late", true)),
    ])
    .unwrap();
    assert_eq!(
        found.libraries.iter().map(|item| item.sort_order).collect::<Vec<_>>(),
        [0, 3]
    );
    assert_eq!(found.libraries[1].display_name, wide("Music"));
    assert_eq!(found.libraries[0].default_save_path, None);
    assert_eq!(found.failures.len(), 1);
    assert_eq!(found.failures[0].message, "no name");
    assert_eq!(found.failures[0].shell_identity, Some(wide("Broken")));
}

#[test]
fn a_failed_walk_through_the_libraries_fails() {
    let failed = ItemRead {
        fetched: 1,
        error: Some(IoError::new(ErrorKind::Other, "gone")),
        item: None,
    };
    let result = enumerate(vec![read(library("Documents", true)), failed]);
    assert_eq!(result.unwrap_err().message, "gone");
    assert!(LibraryEnumeration::default().libraries.is_empty());
    assert_eq!(
        folder_path(vec![]).unwrap_err().message,
        "Windows Libraries folder path is empty"
    );
    assert_eq!(folder_path(wide(r"C:\L")).unwrap(), wide(r"C:\L"));
}

#[test]
fn issue_118_trap_ignores_explicit_select_and_files() {
    let root = wide(r"C:\root");
    let file = wide(r"C:\root\target.txt");
    let launch = |path: &[u16], select| ExternalLaunchPath { path: path.to_vec(), select };
    assert!(trap_candidate(&[launch(&root, true)], true).is_none());
    assert!(trap_candidate(&[launch(&file, false)], false).is_none());
    assert_eq!(trap_candidate(&[launch(&root, false)], true), Some(root.clone()));
    assert_eq!(
        enrich_folder_open_selects(vec![launch(&root, false)], true, None),
        vec![launch(&root, false)]
    );
    assert_eq!(
        enrich_folder_open_selects(vec![launch(&root, false)], true, Some(file.clone())),
        vec![launch(&file, true)]
    );
    assert!(matches!(
        begin_select_followup(&[launch(&root, true)], false),
        Followup::Nothing
    ));
    assert!(matches!(
        begin_select_followup(&[launch(&root, false)], true),
        Followup::SkipShellParent
    ));
    assert!(matches!(
        begin_select_followup_for_ipc(&[launch(&root, false)]),
        Followup::Watch(_)
    ));
    assert!(TrapRegistrations::new().revoke().is_empty());
}

#[test]
fn probe_waits_for_the_window_of_the_process_it_launched() {
    assert_eq!(window_step(Some(7), 7, 6_000_000_000), WaitStep::Reached);
    assert_eq!(window_step(Some(8), 7, 5_000_000_000), WaitStep::Again);
    assert_eq!(window_step(None, 7, 0), WaitStep::Again);
    assert_eq!(
        window_step(Some(8), 7, 5_000_000_001),
        WaitStep::Fail("launched process never registered its own Shell window".into())
    );
    assert!(check_executable(&wide(r"C:\AsterFiles.exe"), &wide(r"C:\AsterFiles.exe")).is_ok());
    assert_eq!(
        check_executable(&wide("AsterFiles"), &wide(r"C:\AsterFiles.exe")).unwrap_err(),
        "Shell executable identity is not the real path"
    );
}

#[test]
fn probe_holds_back_only_late_selections() {
    let cases = probe_cases();
    let names: Vec<&str> = cases.iter().map(|case| case.name).collect();
    assert_eq!(names, ["early", "late", "directory", "downloads"]);
    let delays: Vec<Option<u64>> = cases.iter().map(|case| selection_delay(case.mode)).collect();
    assert_eq!(delays, [None, Some(3200), None, Some(3200)]);
    let sent: Vec<bool> = cases.iter().map(|case| sends_selection(case.mode)).collect();
    assert_eq!(sent, [true, true, false, true]);
    assert!(cases[3].in_downloads && !cases[1].in_downloads);
    assert!(check_delivery(1500).is_ok());
    assert_eq!(
        check_delivery(1501).unwrap_err(),
        "directory delivery waited for the late selection"
    );
}

#[test]
fn probe_waits_until_a_receiver_ends() {
    let ended = |success| Some(ExitReport { success, text: "exit code: 3".into() });
    assert_eq!(receiver_step(ended(true), "late", 20_000_000_000), WaitStep::Reached);
    assert_eq!(
        receiver_step(ended(false), "late", 0),
        WaitStep::Fail("late launcher failed: exit code: 3".into())
    );
    assert_eq!(receiver_step(None, "late", 14_000_000_000), WaitStep::Again);
    assert_eq!(
        receiver_step(None, "late", 14_000_000_001),
        WaitStep::Fail("launcher did not terminate after completion/expiry".into())
    );
}

#[test]
fn probe_reads_the_thread_from_the_report_of_a_receiver() {
    let report = receiver_report("\"late\"", 1234, 12, 3300, true);
    assert!(check_thread(&report, 1234).is_ok());
    assert_eq!(
        check_thread(&report, 123).unwrap_err(),
        "Shell window moved off the launched process's main thread"
    );
    assert!(check_thread(&report, 234).is_err());
    assert!(check_thread("", 1234).is_err());
    let line = case_result("late", "{}");
    assert_eq!(line, r#"{"case":"late","result":{}}"#);
    assert_eq!(
        probe_report(&[line.clone(), line]),
        "{\"scenario\":\"shell-launcher\",\"scope\":\"cross_process_shell_receiver_no_ui\",\"cases\":[{\"case\":\"late\",\"result\":{}},{\"case\":\"late\",\"result\":{}}],\"passed\":true}\n"
    );
}

#[test]
fn the_browser_is_served_before_it_refuses() {
    let other: u128 = 1;
    assert_eq!(query_service(true, false, other, other), ServiceAnswer::Own);
    assert_eq!(query_service(false, false, other, IID_SHELL_BROWSER), ServiceAnswer::Refused);
    assert_eq!(query_service(false, true, other, IID_SHELL_BROWSER), ServiceAnswer::Browser);
    assert_eq!(
        query_service(false, true, SID_TOP_LEVEL_BROWSER, IID_OLE_WINDOW),
        ServiceAnswer::BrowserWindow
    );
    assert_eq!(query_service(false, true, other, IID_OLE_WINDOW), ServiceAnswer::Refused);
}

#[test]
fn a_bitmap_must_be_read_whole() {
    let icon = bitmap_to_rgba(1, 1, 1, vec![1, 2, 3, 4]).unwrap();
    assert_eq!(icon.pixels, [3, 2, 1, 4]);
    let error = bitmap_to_rgba(0, 1, 1, vec![1, 2, 3, 4]).unwrap_err();
    assert_eq!(error.message, "Windows Shell thumbnail pixels unavailable");
    assert!(bitmap_to_rgba(-1, 1, 1, vec![1, 2, 3, 4]).is_err());
}

#[test]
fn the_trap_ends_with_its_timer_or_its_window() {
    assert!(ends_wait(275, 1));
    assert!(!ends_wait(275, 2));
    assert!(ends_wait(2, 0));
    assert!(!ends_wait(15, 1));
    assert_eq!(selected_item(Some(vec![67])), Some(vec![67]));
    assert_eq!(selected_item(Some(vec![])), None);
    assert_eq!(selected_item(None), None);
}

#[test]
fn only_the_owner_of_the_foreground_is_focused() {
    assert!(focus_window(7, true, 9, 7));
    assert!(!focus_window(7, true, 7, 7));
    assert!(!focus_window(7, true, 9, 8));
    assert!(!focus_window(7, false, 9, 7));
    assert!(!focus_window(0, true, 9, 0));
    assert!(client_point_to_screen(7).is_ok());
    assert_eq!(client_point_to_screen(0).unwrap_err().message, "popup owner is unavailable");
}
