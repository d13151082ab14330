use asterfiles::errors::{ErrorKind, IoError};
use asterfiles::operation_audit::{flush_outcome, json_escape, json_line, AuditLog, AuditWriter};
use asterfiles::platform::{
    drive_indices, drive_location, drive_root_path, explorer_pinned_locations, is_shortcut,
    known_locations, open_path, open_url, open_windows_credentials, pinned_location, request_folder_access, resolve_shortcut_target,
    shell_execute, shell_execute_result, system_uses_dark_theme, volume_label, KnownLocationKind, LinkData,
    ListedPlace,
};
use asterfiles::shell_probe::{
    check_icon, check_image, icon_record, image_record, is_primary, probe_outcome, report,
    shell_probe_json_string, source_name, thumbnail_fingerprint, Fixture, Pass, ProbeRun,
};
use asterfiles::text::{decode_lossy, decode_strict, encode_text, is_valid_utf16, trim_text};
use asterfiles::windows::address_path::ExternalLaunchPath;
use asterfiles::windows::launch_probe::{collect, kinds_text};
use asterfiles::windows::shell_icons::{
    GridImageSource, ShellGridImage, ShellIconRgba, ThumbnailSource,
};
use asterfiles::windows::shell_select_probe::{
    check_launch, check_selection, receiver_report, selected_file, try_run, ProbeRole,
};
use asterfiles::windows::{begin_window_drag, client_screen_rect, has_pointer_capture, move_window};

fn wide(text: &str) -> Vec<u16> {
    text.encode_utf16().collect()
}

#[test]
fn flush_persists_ordered_chinese_evidence_and_joins_worker() {
    let mut writer = AuditWriter::start();
    let mut lines = Vec::new();
    lines.push(
        writer
            .record(
                1_700_000_000_000,
                77,
                "导航\"开始",
                "来源=C:\\临时\\Bridge\n目标=Whitebox\t\r\u{0}\u{1f}",
            )
            .unwrap(),
    );
    for index in 0..64 {
        lines.push(
            writer
                .record(1_700_000_000_000, 77, "operation_result", &format!("结果={index}"))
                .unwrap(),
        );
    }
    assert!(writer.flush());
    assert_eq!(lines.len(), 65);
    assert!(lines[0].starts_with("{\"timestamp_ms\":"));
    assert!(lines[0].contains(&format!("\"pid\":{}", 77)));
    assert!(lines[0].trim_end_matches('\n').ends_with(
        "\"event\":\"导航\\\"开始\",\"detail\":\"来源=C:\\\\临时\\\\Bridge\\n目标=Whitebox\\t\\r\\u0000\\u001f\"}"
    ));
    for index in 0..64 {
        assert!(lines[index + 1]
            .trim_end_matches('\n')
            .ends_with(&format!("\"detail\":\"结果={index}\"}}")));
    }
    assert!(!writer.flush());
    let late = writer.record(1, 77, "late", "").unwrap_err();
    assert_eq!(late.kind, ErrorKind::BrokenPipe);
}

#[test]
fn a_flush_gives_the_log_what_was_recorded() {
    let mut log = AuditLog::new();
    assert!(log.needs_worker());
    assert_eq!(log.record(false, 1, 2, "lost", ""), None);
    assert!(!log.flush());
    let lines: Vec<String> = ["a", "b"]
        .iter()
        .map(|event| log.record(true, 5, 6, event, "d").unwrap())
        .collect();
    assert!(!log.needs_worker());
    assert_eq!(lines, [json_line(5, 6, "a", "d"), json_line(5, 6, "b", "d")]);
    assert!(log.flush());
    assert!(!log.flush());
    assert_eq!(log.record(true, 7, 6, "c", "").unwrap(), json_line(7, 6, "c", ""));
    assert!(log.flush());
}

#[test]
fn log_text_stays_on_its_line() {
    assert_eq!(json_escape("a\u{7f}\u{1}\"\\"), "a\u{7f}\\u0001\\\"\\\\");
    let line = json_line(5, 6, "e", "x\ny");
    assert_eq!(line.lines().count(), 1);
    assert_eq!(
        line.trim_end_matches('\n'),
        "{\"timestamp_ms\":5,\"pid\":6,\"event\":\"e\",\"detail\":\"x\\ny\"}"
    );
}

#[test]
fn a_lost_log_worker_is_an_error() {
    assert_eq!(flush_outcome(Some(Ok(()))), Ok(()));
    let full = IoError::from_kind(ErrorKind::Other);
    assert_eq!(flush_outcome(Some(Err(full.clone()))), Err(full));
    assert_eq!(
        flush_outcome(None).unwrap_err().message,
        "file operation audit worker panicked"
    );
}

#[test]
fn text_is_coded_as_the_system_codes_it() {
    let text = "a中😀";
    assert_eq!(encode_text(text), wide(text));
    assert_eq!(decode_lossy(&wide(text)), text.chars().collect::<Vec<char>>());
    assert_eq!(decode_lossy(&[0xd800, 0x61]), ['\u{fffd}', 'a']);
    assert_eq!(decode_strict(&[0xd800, 0x61]), None);
    assert!(is_valid_utf16(&wide(text)));
    assert!(!is_valid_utf16(&[0xdc00]));
    assert_eq!(trim_text("\u{3000} a b\n"), "a b");
}

#[test]
fn the_theme_is_dark_only_when_it_was_read_as_dark() {
    assert!(system_uses_dark_theme(0, 0));
    assert!(!system_uses_dark_theme(0, 1));
    assert!(!system_uses_dark_theme(2, 0));
}

fn place(path: &str, label: Option<&str>) -> ListedPlace {
    ListedPlace {
        pinned: true,
        folder: true,
        file_path: Some(wide(path)),
        parsing_name: None,
        display_name: label.map(wide),
    }
}

#[test]
fn pinned_folders_are_listed_in_their_order() {
    let locations = explorer_pinned_locations(vec![
        place(r"C:\b", Some("B")),
        ListedPlace { pinned: false, ..place(r"C:\x", Some("X")) },
        ListedPlace { folder: false, ..place(r"C:\y", Some("Y")) },
        place(r"C:\a", Some("A")),
    ]);
    let labels: Vec<&str> = locations.iter().map(|location| location.label.as_str()).collect();
    assert_eq!(labels, ["B", "A"]);
    assert!(locations.iter().all(|location| location.kind == KnownLocationKind::Pinned));
    assert!(pinned_location(ListedPlace {
        file_path: None,
        ..place(r"C:\z", Some("Z"))
    })
    .is_none());
}

#[test]
fn drives_are_listed_by_their_letters() {
    assert_eq!(drive_indices(0b101), [0, 2]);
    assert_eq!(drive_indices(1 << 25), [25]);
    assert_eq!(drive_indices(1 << 26), Vec::<u32>::new());
    assert_eq!(drive_root_path(2), wide(r"C:\"));
    assert_eq!(volume_label(&wide("Data\0rest")), "Data");
    let mapped = drive_location(25, "", Some(wide(r"\\s\x")));
    assert_eq!(mapped.path, wide(r"\\s\x"));
    let local = drive_location(2, "系统", None);
    assert_eq!(local.path, wide(r"C:\"));
    assert!(local.label.contains("系统") && local.label.contains("C:"));
    let all = known_locations(Some(wide(r"C:\Users\me")), vec![], vec![local]);
    assert_eq!(all.len(), 2);
    assert_eq!(all[0].kind, KnownLocationKind::Home);
    assert_eq!(all[0].label, "主页");
    assert_eq!(all[1].kind, KnownLocationKind::Drive);
}

#[test]
fn shortcuts_lead_to_what_is_known_of_their_targets() {
    let link = |live: Option<u32>, recorded: u32| LinkData {
        target: wide("C:\\dir\0junk"),
        live_attributes: live,
        recorded_attributes: recorded,
    };
    assert!(is_shortcut(&wide(r"C:\a.LNK")));
    let target = resolve_shortcut_target(&wide(r"C:\a.lnk"), &link(Some(0x10), 0)).unwrap();
    assert_eq!((target.path, target.is_directory), (wide(r"C:\dir"), Some(true)));
    let offline = resolve_shortcut_target(&wide(r"C:\a.lnk"), &link(None, 0x20)).unwrap();
    assert_eq!(offline.is_directory, Some(false));
    let unknown = resolve_shortcut_target(&wide(r"C:\a.lnk"), &link(None, 0)).unwrap();
    assert_eq!(unknown.is_directory, None);
    assert!(resolve_shortcut_target(&wide(r"C:\a.txt"), &link(None, 0)).is_none());
}

#[test]
fn launches_fail_up_to_thirty_two() {
    assert!(shell_execute_result(33).is_ok());
    assert_eq!(
        shell_execute_result(-2).unwrap_err().message,
        "ShellExecuteW failed with code -2"
    );
    assert!(shell_execute_result(32).is_err());
    let folder = request_folder_access(&wide(r"C:\a b"));
    assert_eq!(folder.target, wide("explorer.exe"));
    assert_eq!(folder.arguments, Some(wide("\"C:\\a b\"")));
    let call = shell_execute(&folder);
    assert_eq!(call.operation, wide("open\0"));
    assert_eq!(call.arguments, Some(wide("\"C:\\a b\"\0")));
    assert_eq!(open_path(&wide(r"C:\a")).target, wide(r"C:\a"));
    assert_eq!(open_url("https://example.com").arguments, None);
    assert_eq!(
        open_windows_credentials().arguments,
        Some(wide("/name Microsoft.CredentialManager"))
    );
}

#[test]
fn windows_need_a_handle_to_be_moved() {
    assert!(move_window(0).is_err());
    assert!(move_window(7).is_ok());
    assert_eq!(begin_window_drag(7, 3, 2).unwrap(), 0x2_0003);
    assert_eq!(begin_window_drag(0, 3, 2).unwrap_err().kind, ErrorKind::InvalidInput);
    assert!(has_pointer_capture(7, 7));
    assert!(!has_pointer_capture(0, 0));
}

fn image(width: u32, height: u32, source: GridImageSource) -> ShellGridImage {
    ShellGridImage {
        image: ShellIconRgba { width, height, pixels: vec![b'a'] },
        source,
        thumbnail_error: None,
    }
}

#[test]
fn fingerprints_tell_images_apart() {
    let print = |pixels: Vec<u8>| {
        thumbnail_fingerprint(&ShellIconRgba { width: 1, height: 1, pixels })
    };
    assert_eq!(print(vec![]), "cbf29ce484222325");
    assert_eq!(print(vec![b'a']), "af63dc4c8601ec8c");
}

#[test]
fn probed_images_must_be_what_their_samples_give() {
    let cache = GridImageSource::Thumbnail(ThumbnailSource::Cache);
    assert_eq!(source_name(cache), "thumbnail_cache");
    assert_eq!(
        check_image(Fixture::Folder, &image(0, 4, cache)),
        Some("folder: Shell returned an empty image".into())
    );
    assert_eq!(check_image(Fixture::Png, &image(64, 64, cache)), None);
    assert_eq!(
        check_image(Fixture::Png, &image(64, 64, GridImageSource::SystemIcon)),
        Some("PNG fixture did not produce a real thumbnail".into())
    );
    assert!(check_image(Fixture::Png, &image(63, 64, cache)).is_some());
    assert!(check_image(Fixture::Mtl, &image(64, 64, cache)).is_some());
    assert_eq!(check_image(Fixture::UserSupplied, &image(1, 1, cache)), None);
    let empty = ShellIconRgba { width: 4, height: 0, pixels: vec![] };
    assert_eq!(
        check_icon(Fixture::Unknown, &empty),
        Some("unknown: Shell returned an empty direct icon".into())
    );
    assert!(is_primary(false, Fixture::Png, 128, Pass::First));
    assert!(!is_primary(true, Fixture::Png, 128, Pass::First));
    assert!(!is_primary(false, Fixture::Png, 128, Pass::Repeat));
}

#[test]
fn the_probe_reports_what_it_saw() {
    let provider = GridImageSource::Thumbnail(ThumbnailSource::Provider);
    let mut seen = image(48, 32, provider);
    seen.thumbnail_error = Some("no \"x\"".into());
    let first = image_record(Fixture::Png, Pass::First, 128, &seen);
    assert_eq!(
        first,
        "{\"fixture\":\"png\",\"pass\":\"first\",\"requested_px\":128,\"returned_px\":[48,32],\
         \"source\":\"provider\",\"thumbnail_error\":\"no \\\"x\\\"\"}"
    );
    let icon = icon_record(Fixture::Folder, 32, &seen.image);
    assert!(icon.contains("\"pass\":\"direct_icon\"") && icon.ends_with("null}"));
    let text = report(false, &seen, &[first.clone(), icon.clone()]);
    assert!(text.contains(&format!("\"grid_images\":[{first},{icon}]")));
    assert!(text.contains("\"icon_fallback\":false,\"pixel_fingerprint\":\"af63dc4c8601ec8c\""));
    assert!(text.contains("real_windows_shell_temporary_png"));
    assert_eq!(shell_probe_json_string("a\"\\"), "\"a\\\"\\\\\"");
}

#[test]
fn the_probe_reports_its_failures() {
    let some = |text: &str| Some(text.to_owned());
    assert_eq!(probe_outcome(None, None), None);
    assert_eq!(probe_outcome(some("a"), None), some("a"));
    assert_eq!(probe_outcome(None, some("b")), some("b"));
    assert_eq!(
        probe_outcome(some("a"), some("b")),
        some("a; fixture cleanup failed: b")
    );
}

#[test]
fn launches_are_recorded_with_their_parents() {
    let probe = collect(Some(4), Some(4), None, None, wide("self"));
    assert!(probe.parent_is_shell);
    assert!(!collect(None, None, None, None, vec![]).parent_is_shell);
    assert!(!collect(Some(4), Some(5), None, None, vec![]).parent_is_shell);
    let paths = [
        ExternalLaunchPath { path: wide("a"), select: true },
        ExternalLaunchPath { path: wide("b"), select: false },
    ];
    assert_eq!(kinds_text(&paths), "select,open");
    assert_eq!(kinds_text(&[]), "");
}

#[test]
fn the_select_probe_takes_its_role_from_the_arguments() {
    assert_eq!(try_run(&[wide("x")]), Ok(ProbeRole::NoProbe));
    assert_eq!(
        try_run(&[wide("--agent-shell-launch-probe"), wide("out")]),
        Ok(ProbeRole::Export(wide("out")))
    );
    assert_eq!(
        try_run(&[wide("--agent-shell-launch-probe")]),
        Err("shell launch probe requires an output path".into())
    );
    assert_eq!(
        try_run(&[wide("--agent-shell-launch-receiver"), wide("f")]),
        Err("shell launch receiver requires folder, output and mode".into())
    );
}

#[test]
fn the_select_probe_judges_what_it_received() {
    let folder = wide(r"C:\probe");
    let file = selected_file(&folder);
    assert_eq!(file, wide(r"C:\probe\中文 selected file.txt"));
    let launched = |path: &Vec<u16>, select: bool| {
        [ExternalLaunchPath { path: path.clone(), select }]
    };
    assert!(check_launch(&launched(&file, true), "early", &folder).is_ok());
    assert!(check_launch(&launched(&folder, false), "late", &folder).is_ok());
    assert!(check_launch(&launched(&folder, false), "early", &folder).is_err());
    assert!(check_selection(&Some(file.clone()), "late", &folder).is_ok());
    assert!(check_selection(&None, "directory", &folder).is_ok());
    assert!(check_selection(&Some(file), "directory", &folder).is_err());
    assert_eq!(
        receiver_report("\"early\"", 1, 2, 3, true),
        "{\"mode\":\"early\",\"owner_thread\":1,\"open_ms\":2,\"complete_ms\":3,\
         \"selected\":true,\"passed\":true}"
    );
}

#[test]
fn the_probe_asks_for_every_sample_in_every_way() {
    for user_supplied in [false, true] {
        let mut run = ProbeRun::new(user_supplied);
        let mut asked = Vec::new();
        while let Some(request) = run.request() {
            asked.push(request);
            let source = match request.fixture {
                Fixture::Mtl | Fixture::Unknown => GridImageSource::SystemIcon,
                _ => GridImageSource::Thumbnail(ThumbnailSource::Cache),
            };
            let seen = image(request.requested, 64 + asked.len() as u32, source);
            let fault = match request.pass {
                Some(_) => run.image(seen),
                None => run.icon(&seen.image),
            };
            assert_eq!(fault, None);
        }
        assert_eq!(asked.len(), if user_supplied { 30 } else { 24 });
        assert_eq!((asked[0].fixture, asked[0].requested), (Fixture::Png, 128));
        assert_eq!(asked[1].pass, Some(Pass::Repeat));
        assert_eq!(asked[2].pass, None);
        assert_eq!(asked[3].requested, 256);
        assert_eq!(asked[6].fixture, Fixture::Mtl);
        let primary = if user_supplied { 64 + 25 } else { 64 + 1 };
        assert!(run.finish().contains(&format!("\"returned_px\":[128,{primary}],\"source\"")));
    }
}

#[test]
fn a_fault_ends_the_probe_where_it_is() {
    let mut run = ProbeRun::new(false);
    let icon = image(64, 64, GridImageSource::SystemIcon);
    assert_eq!(
        run.image(icon),
        Some("PNG fixture did not produce a real thumbnail".into())
    );
    assert_eq!(run.request().unwrap().fixture, Fixture::Png);
}

#[test]
fn the_client_area_is_placed_on_the_screen() {
    assert_eq!(client_screen_rect(7, (30, 40), (-5, 6)).unwrap(), (-5, 6, 25, 46));
    assert!(client_screen_rect(0, (30, 40), (-5, 6)).is_err());
}
