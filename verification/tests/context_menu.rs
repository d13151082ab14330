use asterfiles::errors::{ErrorKind, IoError};
use asterfiles::windows::context_menu::nested::{read_menu_recursive, RawMenuTree};
use asterfiles::windows::context_menu::session::{
    background_verb_key, command_id, folder_submenu, invoke_command, late_submenu, menu_item,
    preload_background_submenus, read_menu_level, sub_key, submenu_at_position, submenu_position,
    CascadeEntry, InvokePlan, LateSubmenu, RawMenuItem, RegistryCommands, SubmenuTable,
    MFS_CHECKED, MFS_DISABLED, MFT_SEPARATOR,
};
use asterfiles::windows::context_menu::worker::{
    send, MenuWorker, ShellMenuCommand, ShellMenuEvent, WorkerAction,
};
use asterfiles::windows::context_menu::{
    clean_menu_title, command_verb, forward_menu_message, is_builtin_verb,
    is_dynamic_menu_message, query_flags, validate_background, validate_selection,
    ClassicMenuInvocation, ClassicMenuItem, ClassicMenuItemKind, MenuHandler,
    ShellMenuLoadTarget, ShellMenuSubmenuToken, WM_DRAWITEM, WM_INITMENU, WM_INITMENUPOPUP,
    WM_MEASUREITEM, WM_MENUCHAR,
};
use asterfiles::windows::registry_value::{
    buffer_units, reg_string, registry_string, registry_subkeys, SubkeyStep,
};

fn wide(text: &str) -> Vec<u16> {
    text.encode_utf16().collect()
}

#[test]
fn selection_requires_a_shared_parent() {
    assert!(validate_selection(&[]).is_err());
    assert!(validate_selection(&[wide(r"C:\")]).is_err());
    assert!(validate_selection(&[wide(r"C:\one\a.txt"), wide(r"C:\two\b.txt")]).is_err());
    assert!(validate_selection(&[wide(r"C:\one\a.txt"), wide(r"C:\one\b.txt")]).is_ok());
}

#[test]
fn background_requires_a_folder_identity() {
    assert!(validate_background(&wide("")).is_err());
    assert!(validate_background(&wide(r"C:\one")).is_ok());
}

#[test]
fn refused_selections_say_why() {
    assert_eq!(
        validate_selection(&[]).unwrap_err().message,
        "shell menu selection is empty"
    );
    assert_eq!(
        validate_selection(&[wide(r"C:\")]).unwrap_err().message,
        "classic menu selection must share one parent folder"
    );
    assert_eq!(
        validate_background(&[]).unwrap_err().message,
        "classic background menu folder is empty"
    );
}

#[test]
fn asterfiles_commands_are_not_sent_to_shell() {
    for verb in ["cut", "copy", "paste", "delete", "rename"] {
        assert!(is_builtin_verb(verb));
    }
    assert!(!is_builtin_verb("openwith"));
}

#[test]
fn only_shell_dynamic_menu_messages_are_forwarded() {
    for message in [
        WM_INITMENU,
        WM_INITMENUPOPUP,
        WM_DRAWITEM,
        WM_MEASUREITEM,
        WM_MENUCHAR,
    ] {
        assert!(is_dynamic_menu_message(message));
    }
    assert!(!is_dynamic_menu_message(0));
}

#[test]
fn menu_messages_are_those_of_the_system() {
    assert_eq!(WM_INITMENU, windows_sys::Win32::UI::WindowsAndMessaging::WM_INITMENU);
    assert_eq!(WM_INITMENUPOPUP, windows_sys::Win32::UI::WindowsAndMessaging::WM_INITMENUPOPUP);
    assert_eq!(WM_DRAWITEM, windows_sys::Win32::UI::WindowsAndMessaging::WM_DRAWITEM);
    assert_eq!(WM_MEASUREITEM, windows_sys::Win32::UI::WindowsAndMessaging::WM_MEASUREITEM);
    assert_eq!(WM_MENUCHAR, windows_sys::Win32::UI::WindowsAndMessaging::WM_MENUCHAR);
    assert_eq!(query_flags(true), windows_sys::Win32::UI::Shell::CMF_EXTENDEDVERBS);
    assert_eq!(query_flags(false), 0);
}

#[test]
fn menus_are_initialized_by_the_second_interface_first() {
    assert_eq!(
        forward_menu_message(WM_INITMENUPOPUP),
        vec![MenuHandler::Second, MenuHandler::Third, MenuHandler::Second]
    );
    assert_eq!(
        forward_menu_message(WM_DRAWITEM),
        vec![MenuHandler::Third, MenuHandler::Second]
    );
    assert!(forward_menu_message(0).is_empty());
}

#[test]
fn menu_titles_preserve_literal_ampersands() {
    assert_eq!(clean_menu_title("&Open"), "Open");
    assert_eq!(clean_menu_title("A && B"), "A & B");
    assert_eq!(clean_menu_title("Save &as"), "Save as");
}

#[test]
fn verbs_are_read_up_to_their_end_in_small_letters() {
    assert_eq!(command_verb(&wide("OpenWith\0rest")), Some("openwith".into()));
    assert_eq!(command_verb(&[0, 65]), None);
}

fn cascade(key: &str, title: &str, command: Option<&str>, has_shield: bool) -> CascadeEntry {
    CascadeEntry {
        key: key.into(),
        mui_verb: Some(title.into()),
        default_title: None,
        command: command.map(Into::into),
        has_shield,
    }
}

#[test]
fn background_registry_cascade_resolves_powershell_children() {
    let mut commands = RegistryCommands::new();
    let entries = [
        cascade("openpwsh", "Open here", Some("pwsh.exe"), false),
        cascade("runas", "Open here as Administrator", Some("pwsh.exe -admin"), false),
    ];
    let items = commands.registry_cascade_items(&entries).unwrap();
    assert_eq!(
        items.iter().map(|item| item.title.as_str()).collect::<Vec<_>>(),
        ["Open here", "Open here as Administrator"]
    );
    let found = items
        .iter()
        .map(|item| commands.find(item.command_id.unwrap()).unwrap())
        .collect::<Vec<_>>();
    assert_eq!(found.len(), 2);
    assert!(found.iter().any(|command| command.elevated));
    assert!(found.iter().any(|command| !command.elevated));
    assert_eq!(found[1].command, "pwsh.exe -admin");
}

#[test]
fn a_cascade_entry_without_command_gives_no_menu() {
    let mut commands = RegistryCommands::new();
    let entries = [
        cascade("a", "A", Some("a.exe"), true),
        cascade("b", "B", None, false),
    ];
    assert!(commands.registry_cascade_items(&entries).is_none());
    assert!(commands.registry_cascade_items(&[]).is_none());
    assert_eq!(background_verb_key("x"), r"Directory\Background\shell\x");
    assert_eq!(sub_key("a", "b"), r"a\b");
}

#[test]
fn submenu_token_is_not_a_native_handle_or_command_id() {
    let token: ShellMenuSubmenuToken = 7;
    let item = ClassicMenuItem {
        command_id: None,
        title: "Open with".to_owned(),
        verb: None,
        enabled: true,
        checked: false,
        default: false,
        kind: ClassicMenuItemKind::Submenu { token, items: Vec::new() },
    };
    assert!(matches!(item.kind, ClassicMenuItemKind::Submenu { token: 7, .. }));
    assert_eq!(item.command_id, None);
}

#[test]
fn submenus_keep_their_tokens() {
    let mut table = SubmenuTable::new();
    assert_eq!(table.register_submenu(500, 1), 1);
    assert_eq!(table.register_submenu(600, 1), 2);
    assert_eq!(table.register_submenu(500, 1), 1);
    assert_eq!(table.registration(2).unwrap().menu, 600);
    table.replace_menu(2, 700);
    assert_eq!(table.registration(2).unwrap().menu, 700);
    assert_eq!(table.registration(0).unwrap_err().message, "invalid submenu token");
    let error = table.registration(3).unwrap_err();
    assert_eq!(error.kind, ErrorKind::NotFound);
    assert_eq!(error.message, "shell submenu token not found");
    assert_eq!(submenu_position(&[5, 6, 7], 6).unwrap(), 1);
    assert!(submenu_position(&[5], 6).is_err());
    assert!(submenu_at_position(0).is_err());
}

fn raw(id: u32, item_type: u32, state: u32, title: &str, submenu: i64) -> RawMenuItem {
    RawMenuItem {
        item_type,
        id,
        state,
        title: wide(title),
        verb: Some("share".into()),
        submenu,
    }
}

#[test]
fn menu_levels_are_read_in_their_order() {
    let mut table = SubmenuTable::new();
    let items = read_menu_level(
        vec![
            raw(1, 0, MFS_CHECKED, "&Open", 0),
            raw(0, MFT_SEPARATOR, 0, "", 0),
            raw(2, 0, MFS_DISABLED, "Share", 900),
        ],
        100,
        &mut table,
    );
    assert_eq!(items[0].title, "Open");
    assert_eq!(items[0].command_id, Some(1));
    assert!(items[0].checked && items[0].enabled);
    assert_eq!(items[1].kind, ClassicMenuItemKind::Separator);
    assert!(!items[2].enabled);
    assert!(matches!(items[2].kind, ClassicMenuItemKind::Submenu { token: 1, .. }));
    assert_eq!(folder_submenu(&items, "share").unwrap(), 1);
    assert_eq!(
        folder_submenu(&items, "other").unwrap_err().message,
        "folder-equivalent submenu not found"
    );
    assert!(preload_background_submenus(false, &items).is_empty());
    assert_eq!(command_id(0), None);
    assert_eq!(command_id(1), Some(1));
    let line = menu_item(raw(3, MFT_SEPARATOR, 0, "x", 0), ClassicMenuItemKind::Command);
    assert_eq!(line.command_id, None);
}

#[test]
fn empty_submenus_fall_back_to_the_registry_or_the_folder() {
    let share = Some("windows.share".to_string());
    assert!(matches!(late_submenu(&share, None, true), LateSubmenu::OfSelectedFolder));
    assert!(matches!(late_submenu(&share, None, false), LateSubmenu::Empty));
    assert!(matches!(
        late_submenu(&share, Some(vec![]), true),
        LateSubmenu::Items(_)
    ));
    assert!(matches!(late_submenu(&None, Some(vec![]), true), LateSubmenu::Empty));
}

#[test]
fn commands_are_carried_out_by_the_registry_the_file_manager_or_the_shell() {
    let mut commands = RegistryCommands::new();
    let items = commands
        .registry_cascade_items(&[cascade("a", "A", Some("a.exe"), true)])
        .unwrap();
    let id = items[0].command_id.unwrap();
    match invoke_command(id, false, &commands, None).unwrap() {
        InvokePlan::Registry { parameters, elevated, .. } => {
            assert_eq!(parameters, "/S /C \"a.exe\"");
            assert!(elevated);
        }
        _ => panic!("the registry has the command"),
    }
    assert!(matches!(
        invoke_command(1, false, &commands, Some("copy".into())).unwrap(),
        InvokePlan::BuiltIn(ClassicMenuInvocation::BuiltIn { .. })
    ));
    assert!(matches!(
        invoke_command(5, false, &commands, Some("edit".into())).unwrap(),
        InvokePlan::Shell { offset: 4, .. }
    ));
    assert_eq!(
        invoke_command(0, false, &commands, None).unwrap_err().message,
        "shell returned an invalid menu command"
    );
    assert_eq!(
        invoke_command(1, true, &commands, None).unwrap_err().message,
        "shell context menu was already released"
    );
}

#[test]
fn the_worker_serves_only_the_menu_that_is_open() {
    let mut worker = MenuWorker::new();
    let load = ShellMenuCommand::Load {
        session_id: 1,
        request_id: 2,
        target: ShellMenuLoadTarget::Background(wide(r"C:\a")),
        include_extended_verbs: false,
        owner_window: 9,
    };
    assert!(matches!(worker.receive(load), WorkerAction::Open { owner_window: 9, .. }));
    let failure = IoError::new(ErrorKind::Other, "no menu");
    assert!(matches!(
        worker.loaded(1, 2, Err(failure), 4),
        ShellMenuEvent::Error { operation: "load", elapsed_ms: 4, .. }
    ));
    assert_eq!(worker.session, None);
    assert!(matches!(worker.loaded(1, 2, Ok(vec![]), 5), ShellMenuEvent::Loaded { .. }));
    let submenu = |request_id| ShellMenuCommand::LoadSubmenu {
        session_id: 1,
        request_id,
        submenu_request_id: 7,
        token: 3,
    };
    assert!(matches!(worker.receive(submenu(2)), WorkerAction::ReadSubmenu { token: 3 }));
    match worker.receive(submenu(8)) {
        WorkerAction::Refuse { error } => {
            assert_eq!(error.kind, ErrorKind::NotFound);
            match worker.submenu_loaded(1, 8, 7, 3, Err(error), 6) {
                ShellMenuEvent::SubmenuError { request_id, message, elapsed_ms, .. } => {
                    assert_eq!((request_id, elapsed_ms), (8, 6));
                    assert_eq!(message, "shell menu session not found");
                }
                other => panic!("{other:?}"),
            }
        }
        _ => panic!("another menu is open"),
    }
    let invoke = ShellMenuCommand::Invoke {
        session_id: 2,
        request_id: 2,
        command_id: 1,
        owner_window: 0,
        screen_x: 0,
        screen_y: 0,
    };
    match worker.receive(invoke) {
        WorkerAction::Refuse { error } => assert!(matches!(
            worker.invoked(2, 2, Err(error), 8),
            ShellMenuEvent::Error { operation: "invoke", elapsed_ms: 8, .. }
        )),
        _ => panic!("another menu is open"),
    }
    let close = |request_id| ShellMenuCommand::Close { session_id: 1, request_id };
    assert!(matches!(worker.receive(close(9)), WorkerAction::Answer { release: false, .. }));
    assert_eq!(worker.session, Some((1, 2)));
    assert!(matches!(worker.receive(close(2)), WorkerAction::Answer { release: true, .. }));
    assert_eq!(worker.session, None);
    assert!(matches!(
        worker.invoked(1, 2, Ok(ClassicMenuInvocation::Shell { verb: None }), 1),
        ShellMenuEvent::Invoked { .. }
    ));
    assert!(matches!(
        worker.submenu_loaded(1, 2, 7, 3, Ok(vec![]), 1),
        ShellMenuEvent::SubmenuLoaded { token: 3, .. }
    ));
}

#[test]
fn nested_menus_are_read_to_their_ends() {
    let leaf = |title: &str| RawMenuTree { item: raw(3, 0, 0, title, 0), submenu: vec![] };
    let line = RawMenuTree { item: raw(0, MFT_SEPARATOR, 0, "", 9), submenu: vec![leaf("x")] };
    let items = read_menu_recursive(vec![
        RawMenuTree {
            item: raw(2, 0, MFS_CHECKED, "&Send", 7),
            submenu: vec![leaf("a"), line, leaf("b")],
        },
        leaf("c"),
    ]);
    assert_eq!(items.len(), 2);
    assert_eq!(items[0].title, "Send");
    assert!(items[0].checked);
    match &items[0].kind {
        ClassicMenuItemKind::Submenu { token, items } => {
            assert_eq!((*token, items.len()), (0, 3));
            assert_eq!(items[1].kind, ClassicMenuItemKind::Separator);
            assert_eq!(items[2].title, "b");
        }
        other => panic!("{other:?}"),
    }
    assert_eq!(items[1].kind, ClassicMenuItemKind::Command);
}

#[test]
fn a_stopped_worker_is_a_broken_pipe() {
    assert!(send(true).is_ok());
    assert_eq!(send(false).unwrap_err().kind, ErrorKind::BrokenPipe);
}

#[test]
fn registry_texts_are_read_in_two_steps() {
    assert_eq!(buffer_units(0, 9), Some(4));
    assert_eq!(buffer_units(0, 1), None);
    assert_eq!(registry_string(0, 6, 0, &wide("ab\0c")), Some("ab".into()));
    assert_eq!(registry_string(0, 6, 2, &wide("ab")), None);
    assert_eq!(reg_string(2, 6, 0, &wide("ab")), None);
    assert_eq!(reg_string(0, 4, 0, &[0xd800]), Some(vec![0xd800]));
    assert_eq!(registry_subkeys(0, &wide("key")), SubkeyStep::Found("key".into()));
    assert_eq!(
        registry_subkeys(windows_sys::Win32::Foundation::ERROR_NO_MORE_ITEMS, &[]),
        SubkeyStep::End
    );
    assert_eq!(registry_subkeys(5, &[]), SubkeyStep::Failed);
}

#[test]
fn a_menu_is_copied_with_all_that_lies_below_it() {
    let leaf = ClassicMenuItem {
        command_id: Some(3),
        title: "Leaf".to_owned(),
        verb: Some("leaf".to_owned()),
        enabled: true,
        checked: false,
        default: true,
        kind: ClassicMenuItemKind::Command,
    };
    let menu = ClassicMenuItem {
        command_id: None,
        title: "Menu".to_owned(),
        verb: None,
        enabled: false,
        checked: true,
        default: false,
        kind: ClassicMenuItemKind::Submenu { token: 9, items: vec![leaf.clone(), leaf] },
    };
    assert_eq!(menu.clone(), menu);
    assert_eq!(menu.kind.clone(), menu.kind);
}
