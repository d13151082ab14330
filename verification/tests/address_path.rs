use asterfiles::windows::address_path::{
    expand_environment_strings,
    address_source, classify_external_launch_kind, classify_external_launches,
    finish_address_path, needs_expansion, normalize_address_path, normalize_external_launch_path,
    parse_external_argument, ClassifiedExternalLaunch, ExternalLaunchPath, ParsedExternalArgument,
};

fn wide(text: &str) -> Vec<u16> {
    text.encode_utf16().collect()
}

#[test]
fn normalizes_drive_root_slashes_unc_and_outer_quotes() {
    assert_eq!(normalize_address_path("F:", None), wide(r"F:\"));
    assert_eq!(normalize_address_path(r#"D:""#, None), wide(r"D:\"));
    assert_eq!(
        normalize_address_path(r#""F:/Assets/Mixed\Child""#, None),
        wide(r"F:\Assets\Mixed\Child")
    );
    assert_eq!(
        normalize_address_path("//server/share/folder", None),
        wide(r"\\server\share\folder")
    );
}

#[test]
fn external_launch_repairs_drive_root_quote_and_dot_suffix() {
    for (given, expected) in [
        (r#"D:""#, r"D:\"),
        ("c:", r"c:\"),
        (r"D:\.", r"D:\"),
        (r"D:\Folder With Spaces\.", r"D:\Folder With Spaces"),
        (r"D:\中文", r"D:\中文"),
    ] {
        assert_eq!(normalize_external_launch_path(wide(given)), wide(expected));
    }
}

#[test]
fn expands_windows_environment_variables_before_normalizing_slashes() {
    let source = address_source("%USERPROFILE%/Documents");
    assert!(needs_expansion(&source));
    assert_eq!(
        normalize_address_path(
            "%USERPROFILE%/Documents",
            Some(wide(r"C:\Users\用户/Documents"))
        ),
        wide(r"C:\Users\用户\Documents")
    );
    assert_eq!(
        finish_address_path(wide(r"C:\Users\用户/Documents")),
        wide(r"C:\Users\用户\Documents")
    );
}

#[test]
fn unknown_environment_variable_is_left_for_the_caller_to_reject() {
    assert_eq!(
        normalize_address_path("%ASTERFILES_UNKNOWN_VARIABLE%/Documents", None),
        wide(r"%ASTERFILES_UNKNOWN_VARIABLE%\Documents")
    );
}

#[test]
fn text_without_variables_is_not_replaced_by_an_expansion() {
    assert!(!needs_expansion(&address_source(r"C:\plain")));
    assert_eq!(
        normalize_address_path("  C:/plain ", Some(wide("other"))),
        wide(r"C:\plain")
    );
}

#[test]
fn issue_118_parses_explorer_and_files_select_forms() {
    assert_eq!(
        parse_external_argument(&wide("/select")),
        ParsedExternalArgument::SelectNext
    );
    assert_eq!(
        parse_external_argument(&wide("-Select")),
        ParsedExternalArgument::SelectNext
    );
    assert_eq!(
        parse_external_argument(&wide(r#"/select,"D:\中文\file.txt""#)),
        ParsedExternalArgument::Launch(ExternalLaunchPath::select(wide(r"D:\中文\file.txt")))
    );
    assert_eq!(
        parse_external_argument(&wide(r"-select,C:\Folder With Spaces\a.csv")),
        ParsedExternalArgument::Launch(ExternalLaunchPath::select(wide(
            r"C:\Folder With Spaces\a.csv"
        )))
    );
    assert_eq!(
        parse_external_argument(&wide(r"\\server\share\folder")),
        ParsedExternalArgument::Launch(ExternalLaunchPath::open(wide(r"\\server\share\folder")))
    );
    assert_eq!(
        parse_external_argument(&wide("//server/share/file.txt")),
        ParsedExternalArgument::Launch(ExternalLaunchPath::open(wide(r"//server/share/file.txt")))
    );
}

#[test]
fn issue_118_classifies_files_and_select_without_disk_io() {
    let file = ExternalLaunchPath::open(wide(r"D:\dir\Asset-Rules-Textures.csv"));
    assert_eq!(
        classify_external_launch_kind(&file, Some(false)),
        ClassifiedExternalLaunch::Reveal {
            parent: wide(r"D:\dir"),
            target: wide(r"D:\dir\Asset-Rules-Textures.csv"),
        }
    );
    let folder = ExternalLaunchPath::open(wide(r"D:\dir"));
    assert_eq!(
        classify_external_launch_kind(&folder, Some(true)),
        ClassifiedExternalLaunch::Directory(wide(r"D:\dir"))
    );
    let missing = ExternalLaunchPath::open(wide(r"D:\dir\gone.txt"));
    assert_eq!(
        classify_external_launch_kind(&missing, None),
        ClassifiedExternalLaunch::Directory(wide(r"D:\dir\gone.txt"))
    );
    let select_folder = ExternalLaunchPath::select(wide(r"D:\parent\folder"));
    assert_eq!(
        classify_external_launch_kind(&select_folder, Some(true)),
        ClassifiedExternalLaunch::Reveal {
            parent: wide(r"D:\parent"),
            target: wide(r"D:\parent\folder"),
        }
    );
    let select_missing = ExternalLaunchPath::select(wide(r"D:\dir\gone.txt"));
    assert_eq!(
        classify_external_launch_kind(&select_missing, None),
        ClassifiedExternalLaunch::Reveal {
            parent: wide(r"D:\dir"),
            target: wide(r"D:\dir\gone.txt"),
        }
    );
    let drive = ExternalLaunchPath::select(wide(r"D:\"));
    assert_eq!(
        classify_external_launch_kind(&drive, Some(true)),
        ClassifiedExternalLaunch::Directory(wide(r"D:\"))
    );
}

#[test]
fn launches_are_classified_in_their_order() {
    let root = wide(r"D:\root");
    let file = wide(r"D:\root\target.txt");
    let launches = [
        ExternalLaunchPath::open(root.clone()),
        ExternalLaunchPath::open(file.clone()),
        ExternalLaunchPath::select(file.clone()),
    ];
    let classified =
        classify_external_launches(&launches, &[Some(true), Some(false), Some(false)]);
    let reveal = ClassifiedExternalLaunch::Reveal { parent: root.clone(), target: file.clone() };
    assert_eq!(
        classified,
        vec![ClassifiedExternalLaunch::Directory(root.clone()), reveal.clone(), reveal]
    );
    assert_eq!(classified[1].directory(), root.as_slice());
    assert_eq!(classified[1].reveal_target(), Some(file.as_slice()));
    assert_eq!(classified[0].reveal_target(), None);
}

#[test]
fn variables_stay_where_the_system_gives_up() {
    let address = wide(r"%TEMP%\x");
    let output = wide("C:\\T\\x\0");
    assert_eq!(expand_environment_strings(&address, 7, 7, &output), wide(r"C:\T\x"));
    for (required, written) in [(0, 7), (7, 0), (7, 8)] {
        assert_eq!(
            expand_environment_strings(&address, required, written, &output),
            address
        );
    }
    assert_eq!(expand_environment_strings(&wide("x"), 7, 7, &output), wide("x"));
}
