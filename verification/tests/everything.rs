use asterfiles::windows::everything::installed::{
    common_paths, registry_installations, registry_places,
};
use asterfiles::windows::everything::reply::{
    encode_query, filetime, parse_item, parse_results, EPOCH_TICKS, HEADER, REQ_FULL, REQ_MODIFIED,
    REQ_SIZE,
};
use asterfiles::windows::everything::{
    add_running_instance, class_instance, compose_search, encode_function_argument,
    instance_class, last_error, millis, query_accepted, quote, register_reply, reply_step,
    scope_query, windows_path_eq, EverythingClient, EverythingError,
    EverythingFolderSize, EverythingInstallation, EverythingSearchItem, EverythingSearchPage,
    EverythingSearchRequest, EverythingSort, EverythingStatus, EverythingVersion,
    PlatformEverythingConfig, ReplyStep, StatusStep, REPLY, WM_COPYDATA, WM_NCCREATE, WM_TIMER,
};

fn wide(text: &str) -> Vec<u16> {
    text.encode_utf16().collect()
}

fn client() -> EverythingClient {
    EverythingClient::new(PlatformEverythingConfig {
        executable_path: wide(r"C:\Program Files\Everything 1.5a\Everything64.exe"),
        instance_name: "1.5a".into(),
        allow_start: false,
    })
    .unwrap()
}

#[test]
fn scope_keeps_advanced_query_and_encodes_only_the_scope() {
    assert_eq!(
        compose_search(
            Some(&wide(r#"C:\资料 (A)!|\Emoji 😀\say "hi""#)),
            "ext:png|jpg dm:thisweek"
        ),
        r#"<ancestor:C:\资料#32:#40:A#41:#33:#124:\Emoji#32:#128512:\say#32:#34:hi#34:> ext:png|jpg dm:thisweek"#
    )
}

#[test]
fn scope_uses_everything_character_entities_for_space_parentheses_and_operators() {
    assert_eq!(
        compose_search(Some(&wide(r"D:\My Assets (A)!|")), "*.blend"),
        r"<ancestor:D:\My#32:Assets#32:#40:A#41:#33:#124:> *.blend"
    );
    assert_eq!(
        compose_search(Some(&wide(r"\\LiuYanghomeNAS\Multimedia")), "*.mkv"),
        r"<ancestor:\\LiuYanghomeNAS\Multimedia> *.mkv"
    );
}

#[test]
fn global_is_unchanged() {
    assert_eq!(
        compose_search(None, "  *.blend size:>100mb  "),
        "*.blend size:>100mb"
    )
}

#[test]
fn named_class() {
    assert_eq!(
        instance_class("1.5a"),
        "EVERYTHING_TASKBAR_NOTIFICATION_(1.5a)"
    )
}

#[test]
fn classes_name_their_instance() {
    assert_eq!(class_instance(&instance_class("")), Some(String::new()));
    assert_eq!(class_instance(&instance_class("1.5a")), Some("1.5a".into()));
    assert_eq!(class_instance("Shell_TrayWnd"), None);
    let mut running = vec!["1.5a".to_string()];
    add_running_instance(&mut running, "EVERYTHING_TASKBAR_NOTIFICATION_(1.5a)");
    add_running_instance(&mut running, "EVERYTHING_TASKBAR_NOTIFICATION_(beta)");
    add_running_instance(&mut running, "other");
    assert_eq!(running, ["1.5a", "beta"]);
}

#[test]
fn letters_of_every_script_stand_for_themselves() {
    assert_eq!(encode_function_argument("Ää9文字"), "Ää9文字");
    assert_eq!(encode_function_argument("a-b_c.d"), "a-b_c.d");
    assert_eq!(encode_function_argument("a b"), "a#32:b");
    assert_eq!(scope_query("C:", ""), "ancestor:C:");
    assert_eq!(quote(r#"say "hi""#), r#"say ""hi"""#);
}

#[test]
fn unicode_query_encoding() {
    let b = encode_query(123, "中文 😀", 2, 10, REQ_FULL, 1);
    assert_eq!(u32::from_le_bytes([b[0], b[1], b[2], b[3]]), 123);
    let u = b[HEADER..]
        .chunks_exact(2)
        .map(|x| u16::from_le_bytes([x[0], x[1]]))
        .take_while(|x| *x != 0)
        .collect::<Vec<_>>();
    assert_eq!(String::from_utf16(&u).unwrap(), "中文 😀")
}

#[test]
fn live_status() {
    let c = client();
    let mut replies = Vec::new();
    let answers = [1, 5, 0, 1404, 2, 1, 1];
    let status = loop {
        match c.status(&replies) {
            StatusStep::Send { .. } => replies.push(answers[replies.len()]),
            StatusStep::Done(status) => break status,
            StatusStep::Fail(error) => panic!("{}", error.to_text()),
        }
    };
    assert!(status.version.minor >= 5);
    assert!(status.database_loaded);
    assert_eq!(status.version.to_text(), "1.5.0.1404");
    assert_eq!(status.instance_name, "1.5a");
}

#[test]
fn other_versions_and_machines_are_refused() {
    let c = client();
    assert!(matches!(c.status(&[]), StatusStep::Send { command: 0, argument: 0 }));
    assert!(matches!(
        c.status(&[1, 4, 0, 0]),
        StatusStep::Fail(EverythingError::UnsupportedVersion(_))
    ));
    assert!(matches!(
        c.status(&[1, 5, 0, 0]),
        StatusStep::Send { command: 5, argument: 0 }
    ));
    assert!(matches!(
        c.status(&[1, 5, 0, 0, 1]),
        StatusStep::Fail(EverythingError::UnsupportedArchitecture)
    ));
    assert!(matches!(
        c.status(&[1, 5, 0, 0, 2, 1]),
        StatusStep::Send { command: 411, argument: 2 }
    ));
}

#[test]
fn clients_need_a_plain_instance_name() {
    for name in ["a(b", "a)b", "a\0b"] {
        assert!(matches!(
            EverythingClient::new(PlatformEverythingConfig {
                executable_path: vec![],
                instance_name: name.into(),
                allow_start: true,
            }),
            Err(EverythingError::NotConfigured)
        ));
    }
    assert!(matches!(client().start(true), Err(EverythingError::StartFailed(_))));
    assert!(matches!(client().window(0), Err(EverythingError::NotRunning(_))));
    assert_eq!(client().window(7), Ok(7));
    let mut config = client().config().clone();
    config.allow_start = true;
    let startable = EverythingClient::new(config).unwrap();
    assert_eq!(startable.start(true).unwrap(), ["-instance", "1.5a", "-startup"]);
    assert!(matches!(startable.start(false), Err(EverythingError::InvalidExecutable(_))));
}

#[test]
fn searches_need_a_loaded_database() {
    let mut request = EverythingSearchRequest::new("*.md".into(), Some(wide("D:")));
    request.max_results = 9000;
    request.sort = EverythingSort::ModifiedDescending;
    assert!(matches!(
        client().search(&request, false),
        Err(EverythingError::DatabaseNotLoaded)
    ));
    let query = client().search(&request, true).unwrap();
    assert_eq!(query.search, "<ancestor:D:> *.md");
    assert_eq!(query.max_results, 4096);
    assert_eq!(query.sort, 14);
}

#[test]
fn folder_sizes_are_looked_up_by_path() {
    let version = EverythingVersion { major: 1, minor: 5, revision: 0, build: 0 };
    let mut status = EverythingStatus {
        version,
        instance_name: String::new(),
        database_loaded: true,
        folder_size_indexed: true,
    };
    let request = client().folder_size_request(&status, &wide(r#"C:\a"b"#)).unwrap();
    assert_eq!(request.query, r#"folder:wholepath:"C:\a""b""#);
    assert_eq!(request.max_results, 64);
    status.folder_size_indexed = false;
    assert!(client().folder_size_request(&status, &wide("C:")).is_none());
    let item = |path: &str, size| EverythingSearchItem {
        path: wide(path),
        name: vec![],
        parent: vec![],
        size,
        modified: None,
        is_directory: true,
    };
    let page = EverythingSearchPage {
        total: 2,
        offset: 0,
        items: vec![item(r"C:\x", Some(1)), item(r"c:\A", Some(2))],
    };
    assert_eq!(client().folder_size(&page, &wide(r"C:\a")), EverythingFolderSize::Indexed(2));
    assert_eq!(client().folder_size(&page, &wide(r"C:\b")), EverythingFolderSize::NotIndexed);
}

#[test]
fn installations_are_gathered_once_each() {
    let registered = vec![EverythingInstallation {
        executable_path: wide(r"C:\E\Everything.exe"),
        instance_name: "1.5a".into(),
        running: false,
    }];
    let found = EverythingClient::discover(
        registered,
        &["1.5a".to_string(), "beta".to_string()],
        &[wide(r"C:\E\Everything.exe"), wide(r"D:\P\Everything.exe")],
    );
    assert_eq!(found.len(), 3);
    assert!(found[0].running);
    assert_eq!(found[1].instance_name, "beta");
    assert!(found[1].executable_path.is_empty());
    assert_eq!(found[2].executable_path, wide(r"D:\P\Everything.exe"));
    assert!(!found[2].running);
}

fn counted(text: &str) -> Vec<u8> {
    let units = wide(text);
    let mut bytes = (units.len() as u32).to_le_bytes().to_vec();
    for unit in units {
        bytes.extend(unit.to_le_bytes());
    }
    bytes.extend([0, 0]);
    bytes
}

#[test]
fn replies_are_read_item_by_item() {
    let mut item = counted(r"C:\a\b.txt");
    item.extend(7u64.to_le_bytes());
    item.extend((EPOCH_TICKS + 10).to_le_bytes());
    let flags = REQ_FULL | REQ_SIZE | REQ_MODIFIED;
    let mut reply = Vec::new();
    for number in [1u32, 1, 0, flags, 1, 0, 28] {
        reply.extend(number.to_le_bytes());
    }
    reply.extend(&item);
    let page = parse_results(&reply).unwrap();
    assert_eq!(page.total, 1);
    assert_eq!(page.items[0].path, wide(r"C:\a\b.txt"));
    assert_eq!(page.items[0].name, wide("b.txt"));
    assert_eq!(page.items[0].parent, wide(r"C:\a"));
    assert_eq!(page.items[0].size, Some(7));
    assert_eq!(page.items[0].modified, Some(1000));
    assert!(matches!(parse_results(&reply[..10]), Err(EverythingError::Protocol(_))));
    assert!(parse_item(&reply, 28, flags, 0).is_ok());
    assert!(matches!(
        parse_item(&reply[..40], 28, flags, 0),
        Err(EverythingError::Protocol(_))
    ));
}

#[test]
fn file_times_count_from_1970() {
    assert_eq!(filetime(EPOCH_TICKS), Some(0));
    assert_eq!(filetime(EPOCH_TICKS + 1), Some(100));
    assert_eq!(filetime(EPOCH_TICKS - 1), None);
}

#[test]
fn system_errors_and_limits_are_named() {
    assert_eq!(last_error(1460), EverythingError::Timeout);
    assert_eq!(last_error(5), EverythingError::Windows(5));
    assert_eq!(millis(0), 1);
    assert_eq!(millis(u128::MAX), u32::MAX);
    assert_eq!(EverythingError::NotConfigured.to_text(), "Everything is not configured");
}

#[test]
fn installations_are_looked_for_in_the_registry_and_beside_other_programs() {
    let places = registry_places();
    let found = registry_installations(
        &places,
        &[None, Some(wide(r"C:\a.exe")), None, Some(wide(r"C:\b.exe"))],
    );
    assert_eq!(found.len(), 2);
    assert_eq!(found[0].executable_path, wide(r"C:\a.exe"));
    assert_eq!(found[0].instance_name, "1.5a");
    assert_eq!(found[1].instance_name, "");
    assert!(places[0].machine && !places[1].machine);
    assert_eq!(places[2].key, r"Software\voidtools\Everything");
    assert_eq!(
        common_paths(&None, &Some(wide(r"C:\L"))),
        vec![
            wide(r"C:\L\Everything 1.5a\Everything64.exe"),
            wide(r"C:\L\Everything\Everything64.exe"),
        ]
    );
}

#[test]
fn the_reply_window_takes_only_its_own_answers() {
    assert_eq!(reply_step(WM_NCCREATE, false, 0, false), ReplyStep::Attach);
    assert_eq!(reply_step(WM_COPYDATA, true, REPLY, true), ReplyStep::Parse);
    assert_eq!(reply_step(WM_COPYDATA, true, REPLY + 1, true), ReplyStep::Pass);
    assert_eq!(reply_step(WM_COPYDATA, true, REPLY, false), ReplyStep::Pass);
    assert_eq!(reply_step(WM_COPYDATA, false, REPLY, true), ReplyStep::Pass);
    assert_eq!(reply_step(WM_TIMER, true, 0, false), ReplyStep::TimedOut);
    assert_eq!(reply_step(WM_TIMER, false, 0, false), ReplyStep::Pass);
}

#[test]
fn a_query_is_taken_refused_or_lost() {
    assert_eq!(query_accepted(true, 1, 0), Ok(()));
    assert_eq!(query_accepted(true, 0, 0), Err(EverythingError::QueryRejected));
    assert_eq!(query_accepted(false, 0, 1460), Err(EverythingError::Timeout));
    assert_eq!(query_accepted(false, 1, 5), Err(EverythingError::Windows(5)));
    assert_eq!(register_reply(None), Ok(()));
    assert_eq!(register_reply(Some(1410)), Ok(()));
    assert_eq!(register_reply(Some(8)), Err(EverythingError::Windows(8)));
}

#[test]
fn orders_classes_and_paths_have_their_fixed_forms() {
    assert_eq!(EverythingSort::NameAscending.ipc(), 1);
    assert_eq!(EverythingSort::SizeDescending.ipc(), 6);
    assert_eq!(EverythingSort::ModifiedAscending.ipc(), 13);
    assert_eq!(EverythingSort::ModifiedDescending.ipc(), 14);
    assert_eq!(client().window_class(), "EVERYTHING_TASKBAR_NOTIFICATION_(1.5a)");
    assert!(windows_path_eq(&wide(r"C:\TOOLS\Everything.exe"), &wide(r"c:\tools\everything.EXE")));
    assert!(!windows_path_eq(&wide(r"C:\Tools"), &wide(r"C:\Tool")));
}
