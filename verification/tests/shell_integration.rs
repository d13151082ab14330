use asterfiles::windows::shell_integration::image::{
    make_value, RegistryEntry, RegistryImage, RegistryOperation, RegistryValue, REG_BINARY,
    REG_DWORD, REG_EXPAND_SZ, REG_SZ,
};
use asterfiles::windows::shell_integration::{
    backup_value, bound_executable, command_for, command_invokes_asterfiles, enable,
    enable_folder_open, enable_win_e, folder_open_status,
    folder_targets, leftover_asterfiles_command, read_dword, read_string, recovery, restore,
    repair_folder_open, repair_win_e, restore_fallback, restore_folder_open, restore_value,
    restore_win_e, roll_back, win_e_status, status, string_value, target_is_owned, win_e_targets,
    write_dword, write_string, EnablePlan, Recovery, RegistryScope, ShellIntegrationRepairReason,
    ShellIntegrationStatus, FOLDER_STATE, WIN_E_STATE,
};

const EXECUTABLE: &str = r"C:\Temp\asterfiles-shell-integration.exe";

fn wide(text: &str) -> Vec<u16> {
    text.encode_utf16().collect()
}

struct TestScope {
    registry: RegistryScope,
    image: RegistryImage,
    executable: Vec<u16>,
}

impl TestScope {
    fn new() -> Self {
        let root = r"Software\AsterFiles\Tests\ShellIntegration";
        Self {
            registry: RegistryScope {
                classes_base: format!(r"{root}\Classes"),
                state_base: format!(r"{root}\State"),
            },
            image: RegistryImage::load(vec![]),
            executable: wide(EXECUTABLE),
        }
    }

    fn key(&self, index: usize) -> String {
        self.registry.class_key(folder_targets()[index].key)
    }

    fn enable_folder(&mut self) -> EnablePlan {
        enable(
            &mut self.image,
            &self.registry,
            FOLDER_STATE,
            &folder_targets(),
            &self.executable,
        )
        .unwrap()
    }

    fn restore_folder(&mut self) {
        restore(&mut self.image, &self.registry, FOLDER_STATE, &folder_targets()).unwrap();
    }

    fn folder_status(&self, current: &[u16]) -> ShellIntegrationStatus {
        status(
            &self.image,
            &self.registry,
            FOLDER_STATE,
            &folder_targets(),
            current,
            true,
        )
        .unwrap()
    }

    fn write(&mut self, key: &str, name: &str, text: &str) {
        write_string(&mut self.image, key, name, &wide(text));
    }

    fn text(&self, key: &str, name: &str) -> Option<String> {
        read_string(&self.image, key, name)
            .unwrap()
            .map(|units| String::from_utf16(&units).unwrap())
    }
}

#[test]
fn issue_123_expandable_commands_enable_and_restore_original_type_and_bytes() {
    for (integration, targets, command) in [
        (FOLDER_STATE, folder_targets(), r"%SystemRoot%\Explorer.exe"),
        (
            FOLDER_STATE,
            folder_targets(),
            r#""%LOCALAPPDATA%\Files\Files.App.Launcher.exe" "%1""#,
        ),
        (
            WIN_E_STATE,
            win_e_targets(),
            r#""%LOCALAPPDATA%\Files\Files.App.Launcher.exe""#,
        ),
    ] {
        let mut test = TestScope::new();
        let original = RegistryValue {
            value_type: REG_EXPAND_SZ,
            data: string_value(&wide(command)).data,
        };
        let delegate = string_value(&wide("{11dbb47c-a525-400b-9e80-a54615a090c0}"));
        for target in &targets {
            let key = test.registry.class_key(target.key);
            test.image.write_raw(&key, "", original.value_type, &original.data);
            test.image.write_raw(&key, "DelegateExecute", delegate.value_type, &delegate.data);
        }
        let state = |test: &TestScope| {
            status(
                &test.image,
                &test.registry,
                integration,
                &targets,
                &test.executable,
                true,
            )
            .unwrap()
        };
        assert_eq!(state(&test), ShellIntegrationStatus::Disabled);
        for _ in 0..2 {
            let executable = test.executable.clone();
            enable(&mut test.image, &test.registry, integration, &targets, &executable).unwrap();
        }
        assert_eq!(
            state(&test),
            ShellIntegrationStatus::Enabled { executable: test.executable.clone() },
        );
        restore(&mut test.image, &test.registry, integration, &targets).unwrap();
        for target in &targets {
            let key = test.registry.class_key(target.key);
            assert_eq!(test.image.read_value(&key, ""), Some(original.clone()));
            assert_eq!(test.image.read_value(&key, "DelegateExecute"), Some(delegate.clone()));
        }
        assert_eq!(state(&test), ShellIntegrationStatus::Disabled);
    }
}

#[test]
fn issue_123_restore_preserves_another_app_expandable_command() {
    let mut test = TestScope::new();
    test.enable_folder();
    let other = RegistryValue {
        value_type: REG_EXPAND_SZ,
        data: string_value(&wide(r#""%LOCALAPPDATA%\Files\Files.App.Launcher.exe" "%1""#)).data,
    };
    let key = test.key(0);
    test.image.write_raw(&key, "", other.value_type, &other.data);
    assert!(matches!(
        test.folder_status(&test.executable),
        ShellIntegrationStatus::NeedsRepair {
            reason: ShellIntegrationRepairReason::RegistryChanged,
            ..
        },
    ));
    test.restore_folder();
    assert_eq!(test.image.read_value(&key, ""), Some(other));
    assert_eq!(
        test.image.read_value(&key, "DelegateExecute"),
        Some(string_value(&[]))
    );
}

#[test]
fn folder_enable_status_and_restore_preserve_previous_values() {
    let mut test = TestScope::new();
    for index in 0..folder_targets().len() {
        let key = test.key(index);
        test.write(&key, "", "previous command");
        test.write(&key, "DelegateExecute", "previous delegate");
    }
    test.enable_folder();
    assert_eq!(
        test.folder_status(&test.executable),
        ShellIntegrationStatus::Enabled { executable: test.executable.clone() }
    );
    test.restore_folder();
    for index in 0..folder_targets().len() {
        let key = test.key(index);
        assert_eq!(test.text(&key, ""), Some("previous command".into()));
        assert_eq!(test.text(&key, "DelegateExecute"), Some("previous delegate".into()));
    }
}

#[test]
fn restore_only_removes_values_still_owned_by_asterfiles() {
    let mut test = TestScope::new();
    test.enable_folder();
    let key = test.key(0);
    test.write(&key, "", "another app");
    test.restore_folder();
    assert_eq!(test.text(&key, ""), Some("another app".into()));
    assert_eq!(test.text(&key, "DelegateExecute"), Some("".into()));
}

#[test]
fn repair_keeps_the_original_backup() {
    let mut test = TestScope::new();
    let key = test.key(0);
    test.write(&key, "", "original");
    test.enable_folder();
    test.write(&key, "", "damaged");
    let moved = wide(r"C:\Temp\moved.exe");
    enable(&mut test.image, &test.registry, FOLDER_STATE, &folder_targets(), &moved).unwrap();
    test.restore_folder();
    assert_eq!(test.text(&key, ""), Some("original".into()));
}

#[test]
fn win_e_restore_does_not_affect_folder_registration() {
    let mut test = TestScope::new();
    test.enable_folder();
    let executable = test.executable.clone();
    enable(&mut test.image, &test.registry, WIN_E_STATE, &win_e_targets(), &executable).unwrap();
    restore(&mut test.image, &test.registry, WIN_E_STATE, &win_e_targets()).unwrap();
    for target in folder_targets() {
        assert!(target_is_owned(&test.image, &test.registry, target, &executable));
    }
    let key = test.registry.class_key(win_e_targets()[0].key);
    assert_eq!(test.image.read_value(&key, ""), None);
    assert_eq!(test.image.read_value(&key, "DelegateExecute"), None);
}

#[test]
fn status_distinguishes_a_moved_executable_from_changed_registry() {
    let mut test = TestScope::new();
    test.enable_folder();
    let moved = wide(r"C:\Temp\current-location.exe");
    assert_eq!(
        test.folder_status(&moved),
        ShellIntegrationStatus::NeedsRepair {
            bound_executable: test.executable.clone(),
            reason: ShellIntegrationRepairReason::ExecutableMovedOrMissing,
        }
    );
    let key = test.key(0);
    test.write(&key, "", "another app");
    assert_eq!(
        test.folder_status(&moved),
        ShellIntegrationStatus::NeedsRepair {
            bound_executable: test.executable.clone(),
            reason: ShellIntegrationRepairReason::RegistryChanged,
        }
    );
}

#[test]
fn incomplete_enable_state_is_repairable_and_restorable() {
    let mut test = TestScope::new();
    let key = test.key(0);
    test.write(&key, "", "original");
    let state = test.registry.state_key(FOLDER_STATE);
    for target in folder_targets() {
        let target_key = test.registry.class_key(target.key);
        let command = test.image.read_value(&target_key, "");
        backup_value(&mut test.image, &state, target.backup_prefix, "Default", command);
        let delegate = test.image.read_value(&target_key, "DelegateExecute");
        backup_value(
            &mut test.image,
            &state,
            target.backup_prefix,
            "DelegateExecute",
            delegate,
        );
    }
    let executable = test.executable.clone();
    write_string(&mut test.image, &state, "BoundExecutable", &executable);
    write_dword(&mut test.image, &state, "BackupComplete", 1);
    let command = command_for(&executable, Some(r"%1\."));
    write_string(&mut test.image, &key, "", &command);
    test.write(&key, "DelegateExecute", "");
    assert!(matches!(
        test.folder_status(&executable),
        ShellIntegrationStatus::NeedsRepair { .. }
    ));
    test.restore_folder();
    assert_eq!(test.text(&key, ""), Some("original".into()));
    assert_eq!(test.image.read_value(&key, "DelegateExecute"), None);
}

#[test]
fn repeated_enable_does_not_replace_the_original_backup() {
    let mut test = TestScope::new();
    let key = test.key(0);
    test.write(&key, "", "original");
    test.enable_folder();
    test.enable_folder();
    test.restore_folder();
    assert_eq!(test.text(&key, ""), Some("original".into()));
}

#[test]
fn command_preserves_unicode_path_and_drive_root_safe_argument() {
    let targets = folder_targets();
    assert_eq!(
        command_for(&wide(r"C:\便携 应用\AsterFiles.exe"), targets[0].argument),
        wide(r#""C:\便携 应用\AsterFiles.exe" "%1\.""#)
    );
    assert_eq!(targets[1].argument, targets[0].argument);
}

#[test]
fn leftover_asterfiles_command_without_state_is_repairable_and_restorable() {
    let mut test = TestScope::new();
    let key = test.key(0);
    test.write(
        &key,
        "",
        r#""F:\CodeProjects\AsterFiles\target\debug\asterfiles.exe" "%1\.""#,
    );
    test.write(&key, "DelegateExecute", "");
    assert!(
        leftover_asterfiles_command(&test.image, &test.registry, &folder_targets()).unwrap()
    );
    assert_eq!(
        test.folder_status(&test.executable),
        ShellIntegrationStatus::NeedsRepair {
            bound_executable: test.executable.clone(),
            reason: ShellIntegrationRepairReason::RegistryChanged,
        }
    );
    test.restore_folder();
    assert_eq!(test.image.read_value(&key, ""), None);
    assert_eq!(test.image.read_value(&key, "DelegateExecute"), None);
    assert_eq!(test.folder_status(&test.executable), ShellIntegrationStatus::Disabled);
}

#[test]
fn enable_does_not_backup_leftover_asterfiles_command_as_original() {
    let mut test = TestScope::new();
    let key = test.key(0);
    test.write(
        &key,
        "",
        r#""F:\CodeProjects\AsterFiles\target\debug\asterfiles.exe" "%1\.""#,
    );
    test.write(&key, "DelegateExecute", "");
    test.enable_folder();
    test.restore_folder();
    assert_eq!(test.image.read_value(&key, ""), None);
    assert_eq!(test.image.read_value(&key, "DelegateExecute"), None);
}

#[test]
fn the_operations_lead_from_the_old_registry_to_the_new_one() {
    let mut test = TestScope::new();
    let plan = test.enable_folder();
    assert!(!plan.had_backup);
    let mut replay = RegistryImage::load(vec![]);
    for operation in test.image.operations() {
        match operation {
            RegistryOperation::Write { key, name, value } => {
                replay.write_raw(key, name, value.value_type, &value.data)
            }
            RegistryOperation::DeleteValue { key, name } => replay.delete_value(key, name),
            RegistryOperation::DeleteTree { key } => replay.delete_tree(key),
        }
    }
    for index in 0..folder_targets().len() {
        let key = test.key(index);
        assert_eq!(replay.read_value(&key, ""), test.image.read_value(&key, ""));
    }
    assert_eq!(test.image.logged_count(), test.image.operations().len());
    assert_eq!(
        bound_executable(&replay, &test.registry, FOLDER_STATE),
        Some(test.executable.clone())
    );
    assert!(test.enable_folder().had_backup);
}

#[test]
fn a_failed_registration_is_undone_unless_there_was_one() {
    let plan = EnablePlan { had_backup: false, backup_operations: 3 };
    assert_eq!(recovery(plan, 2), Recovery::DropState);
    assert_eq!(recovery(plan, 3), Recovery::RollBack);
    let repeated = EnablePlan { had_backup: true, ..plan };
    assert_eq!(recovery(repeated, 3), Recovery::Leave);
    let mut test = TestScope::new();
    let key = test.key(0);
    test.write(&key, "", "original");
    test.enable_folder();
    roll_back(&mut test.image, &test.registry, FOLDER_STATE, &folder_targets());
    assert_eq!(test.text(&key, ""), Some("original".into()));
    assert_eq!(bound_executable(&test.image, &test.registry, FOLDER_STATE), None);
}

#[test]
fn values_of_another_kind_are_not_read() {
    let mut test = TestScope::new();
    test.image.write_raw("k", "n", REG_BINARY, &[1, 2]);
    assert!(read_string(&test.image, "k", "n").is_err());
    assert!(read_dword(&test.image, "k", "n").is_err());
    write_dword(&mut test.image, "k", "d", 0x0102_0304);
    assert_eq!(read_dword(&test.image, "k", "d").unwrap(), Some(0x0102_0304));
    assert_eq!(read_dword(&test.image, "k", "none").unwrap(), None);
    assert_eq!(
        test.image.read_value("k", "d"),
        Some(make_value(REG_DWORD, &[4, 3, 2, 1]))
    );
    assert!(command_invokes_asterfiles(&Some(wide(r#""C:\x\ASTERFILES.EXE""#))));
    assert!(!command_invokes_asterfiles(&Some(wide("explorer.exe"))));
    assert!(!command_invokes_asterfiles(&None));
}

#[test]
fn trees_are_deleted_with_all_below_them() {
    let entry = |key: &str| RegistryEntry {
        key: key.into(),
        name: String::new(),
        value: make_value(REG_SZ, &[]),
    };
    let mut image = RegistryImage::load(vec![entry(r"a\b"), entry("a"), entry("ab")]);
    image.delete_tree("a");
    assert_eq!(image.read_value(r"a\b", ""), None);
    assert_eq!(image.read_value("a", ""), None);
    assert!(image.read_value("ab", "").is_some());
}

#[test]
fn a_value_that_cannot_be_written_back_is_deleted() {
    let write = RegistryOperation::Write {
        key: "k".into(),
        name: "n".into(),
        value: make_value(REG_SZ, &[]),
    };
    match restore_fallback(&write) {
        Some(RegistryOperation::DeleteValue { key, name }) => {
            assert_eq!((key.as_str(), name.as_str()), ("k", "n"))
        }
        _ => panic!("the value is deleted"),
    }
    assert!(restore_fallback(&RegistryOperation::DeleteTree { key: "k".into() }).is_none());
}

#[test]
fn registry_kinds_are_those_of_the_system() {
    assert_eq!(REG_SZ, windows_sys::Win32::System::Registry::REG_SZ);
    assert_eq!(REG_EXPAND_SZ, windows_sys::Win32::System::Registry::REG_EXPAND_SZ);
    assert_eq!(REG_BINARY, windows_sys::Win32::System::Registry::REG_BINARY);
    assert_eq!(REG_DWORD, windows_sys::Win32::System::Registry::REG_DWORD);
}

#[test]
fn both_integrations_are_kept_apart_in_one_registry() {
    let executable = wide(EXECUTABLE);
    let enabled = ShellIntegrationStatus::Enabled { executable: executable.clone() };
    let mut image = RegistryImage::load(vec![]);
    assert_eq!(
        folder_open_status(&image, &executable, true).unwrap(),
        ShellIntegrationStatus::Disabled
    );
    enable_folder_open(&mut image, &executable).unwrap();
    assert_eq!(folder_open_status(&image, &executable, true).unwrap(), enabled);
    assert_eq!(
        win_e_status(&image, &executable, true).unwrap(),
        ShellIntegrationStatus::Disabled
    );
    let folder_key = RegistryScope::production().class_key(folder_targets()[0].key);
    assert!(image.read_value(&folder_key, "").is_some());

    enable_win_e(&mut image, &executable).unwrap();
    repair_win_e(&mut image, &executable).unwrap();
    restore_folder_open(&mut image).unwrap();
    assert_eq!(
        folder_open_status(&image, &executable, true).unwrap(),
        ShellIntegrationStatus::Disabled
    );
    assert_eq!(win_e_status(&image, &executable, true).unwrap(), enabled);

    repair_folder_open(&mut image, &executable).unwrap();
    restore_win_e(&mut image).unwrap();
    assert_eq!(folder_open_status(&image, &executable, true).unwrap(), enabled);
    assert_eq!(
        win_e_status(&image, &executable, true).unwrap(),
        ShellIntegrationStatus::Disabled
    );
}

#[test]
fn a_single_value_is_restored_from_its_backup() {
    let mut image = RegistryImage::load(vec![]);
    write_string(&mut image, "Classes", "Name", &wide("before"));
    let value = image.read_value("Classes", "Name");
    backup_value(&mut image, "State", "Folder", "Default", value);
    write_string(&mut image, "Classes", "Name", &wide("after"));
    restore_value(&mut image, "State", "Folder", "Default", "Classes", "Name").unwrap();
    assert_eq!(read_string(&image, "Classes", "Name").unwrap(), Some(wide("before")));
}

#[test]
fn a_target_that_is_still_ours_is_given_back_beside_a_foreign_one() {
    let mut test = TestScope::new();
    let (open, explore) = (test.key(0), test.key(1));
    test.write(&open, "", "before open");
    test.write(&explore, "", "before explore");
    test.enable_folder();
    test.write(&explore, "", "other.exe");
    test.write(&explore, "DelegateExecute", "other");
    test.restore_folder();
    assert_eq!(test.text(&open, ""), Some("before open".into()));
    assert_eq!(test.text(&open, "DelegateExecute"), None);
    assert_eq!(test.text(&explore, ""), Some("other.exe".into()));
    assert_eq!(test.text(&explore, "DelegateExecute"), Some("other".into()));
    assert_eq!(test.folder_status(&wide(EXECUTABLE)), ShellIntegrationStatus::Disabled);
}
