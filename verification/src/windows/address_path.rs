//! Paths typed into the address bar or handed over by the Windows Shell.
use vstd::prelude::*;

use crate::text;
use crate::text::{encode_chars, str_chars, trim_chars};
use crate::wide;
use crate::wide::{lower_unit, units_copy, BACKSLASH, COLON, COMMA, DOT, QUOTE, SLASH};
use crate::winpath;
use crate::winpath::{parent_of, units_copy_all};

verus! {

/// The letters whose low byte an ASCII letter has; only the low byte of the unit is looked at.
pub open spec fn low_byte_is_letter(unit: u16) -> bool {
    let low = unit % 0x100;
    (0x41 <= low <= 0x5a) || (0x61 <= low <= 0x7a)
}

/// A drive without its root, `D:` or `D:"`, with the root in place; anything else unchanged.
pub open spec fn drive_root_repaired(s: Seq<u16>) -> Seq<u16> {
    if s.len() < 2 || !low_byte_is_letter(s[0]) || s[1] != COLON {
        s
    } else if s.len() == 2 {
        s.push(BACKSLASH)
    } else if s.len() == 3 && s[2] == QUOTE {
        s.update(2, BACKSLASH)
    } else {
        s
    }
}

/// The path without the `\.` that a launch command may end in, with its drive root repaired.
pub open spec fn launch_path(s: Seq<u16>) -> Seq<u16> {
    let n = s.len();
    if n >= 2 && s[n - 2] == BACKSLASH && s[n - 1] == DOT {
        drive_root_repaired(s.subrange(0, n - 2))
    } else {
        drive_root_repaired(s)
    }
}

pub open spec fn with_backslashes(s: Seq<u16>) -> Seq<u16> {
    Seq::new(
        s.len(),
        |i: int|
            if s[i] == SLASH {
                BACKSLASH
            } else {
                s[i]
            },
    )
}

/// The text between one pair of quotes around it, or the text itself.
pub open spec fn unquoted_text(s: Seq<char>) -> Seq<char> {
    if s.len() >= 2 && s[0] == '"' && s.last() == '"' {
        s.subrange(1, s.len() - 1)
    } else {
        s
    }
}

/// What is typed, trimmed and without quotes: the text in which variables are expanded.
pub open spec fn address_text(input: Seq<char>) -> Seq<char> {
    unquoted_text(text::trimmed(input))
}

/// The path that an expanded address stands for.
pub open spec fn address_path(expanded: Seq<u16>) -> Seq<u16> {
    drive_root_repaired(with_backslashes(expanded))
}

pub open spec fn unquoted(s: Seq<u16>) -> Seq<u16> {
    if s.len() >= 2 && s[0] == QUOTE && s.last() == QUOTE {
        s.subrange(1, s.len() - 1)
    } else {
        s
    }
}

fn repair_drive_root_argv(wide: &mut Vec<u16>)
    ensures
        final(wide)@ == drive_root_repaired(old(wide)@),
{
    let n: usize = wide.len();
    if n < 2 {
        return;
    }
    let low: u16 = wide[0] % 0x100;
    let letter = (0x41 <= low && low <= 0x5a) || (0x61 <= low && low <= 0x7a);
    if !letter || wide[1] != COLON {
        return;
    }
    if n == 2 {
        wide.push(BACKSLASH);
    } else if n == 3 && wide[2] == QUOTE {
        wide.set(2, BACKSLASH);
    }
}

/// The text of an address in which environment variables are still to be expanded.
pub fn address_source(input: &str) -> (source: Vec<u16>)
    ensures
        source@ == text::utf16_encoded(address_text(input@)),
{
    let chars = str_chars(input);
    let kept = trim_chars(chars.as_slice());
    let n: usize = kept.len();
    if n >= 2 && kept[0] == '"' && kept[n - 1] == '"' {
        encode_chars(vstd::slice::slice_subrange(kept.as_slice(), 1, n - 1))
    } else {
        encode_chars(kept.as_slice())
    }
}

/// Whether an address holds anything to expand.
pub fn needs_expansion(source: &[u16]) -> (needed: bool)
    ensures
        needed == source@.contains(0x25),
{
    crate::wide::contains_unit(source, 0x25)
}

/// An address with its variables expanded, given the room that the system asks for, how much it
/// wrote, its closing zero included, and where. Where it gave up, the address stays as it is.
pub fn expand_environment_strings(
    input: &[u16],
    required: u32,
    written: u32,
    output: &[u16],
) -> (expanded: Vec<u16>)
    ensures
        expanded@ == if !input@.contains(0x25) || required == 0 || written == 0 || written
            > output@.len() {
            input@
        } else {
            output@.subrange(0, written - 1)
        },
{
    let room: usize = output.len();
    if !needs_expansion(input) || required == 0 || written == 0 || written as usize > room {
        return units_copy_all(input);
    }
    let kept: usize = (written - 1) as usize;
    units_copy(output, 0, kept)
}

/// The path that an address stands for once its variables are expanded.
pub fn finish_address_path(expanded: Vec<u16>) -> (path: Vec<u16>)
    ensures
        path@ == address_path(expanded@),
{
    let mut wide = expanded;
    let n: usize = wide.len();
    let mut i: usize = 0;
    while i < n
        invariant
            i <= n,
            n == wide@.len(),
            n == expanded@.len(),
            forall|j: int| 0 <= j < i ==> #[trigger] wide@[j] == with_backslashes(expanded@)[j],
            forall|j: int| i <= j < n ==> #[trigger] wide@[j] == expanded@[j],
        decreases n - i,
    {
        if wide[i] == SLASH {
            wide.set(i, BACKSLASH);
        }
        i += 1;
    }
    assert(wide@ =~= with_backslashes(expanded@));
    repair_drive_root_argv(&mut wide);
    wide
}

/// The path that an address stands for, given what the system makes of its variables. `expanded`
/// is looked at only where the address holds a `%`; without it the text stays as it is.
pub fn normalize_address_path(input: &str, expanded: Option<Vec<u16>>) -> (path: Vec<u16>)
    ensures
        ({
            let source = text::utf16_encoded(address_text(input@));
            path@ == address_path(
                if source.contains(0x25) && expanded is Some {
                    expanded->0@
                } else {
                    source
                },
            )
        }),
{
    let source = address_source(input);
    if needs_expansion(source.as_slice()) {
        match expanded {
            Some(expanded) => finish_address_path(expanded),
            None => finish_address_path(source),
        }
    } else {
        finish_address_path(source)
    }
}

pub fn normalize_external_launch_path(path: Vec<u16>) -> (normal: Vec<u16>)
    ensures
        normal@ == launch_path(path@),
{
    let mut wide = path;
    let n: usize = wide.len();
    if n >= 2 && wide[n - 2] == BACKSLASH && wide[n - 1] == DOT {
        wide.truncate(n - 2);
    }
    repair_drive_root_argv(&mut wide);
    wide
}

/// A path to be opened, or shown in its folder.
#[derive(Debug, Clone, PartialEq, Eq)]
pub struct ExternalLaunchPath {
    pub path: Vec<u16>,
    pub select: bool,
}

impl ExternalLaunchPath {
    pub fn open(path: Vec<u16>) -> (launch: Self)
        ensures
            launch.path@ == launch_path(path@),
            !launch.select,
    {
        Self { path: normalize_external_launch_path(path), select: false }
    }

    pub fn select(path: Vec<u16>) -> (launch: Self)
        ensures
            launch.path@ == launch_path(path@),
            launch.select,
    {
        Self { path: normalize_external_launch_path(path), select: true }
    }
}

#[derive(Debug, Clone, PartialEq, Eq)]
pub enum ClassifiedExternalLaunch {
    Directory(Vec<u16>),
    Reveal { parent: Vec<u16>, target: Vec<u16> },
}

/// A classified launch as a value.
pub enum Launch {
    Directory(Seq<u16>),
    Reveal { parent: Seq<u16>, target: Seq<u16> },
}

impl View for ClassifiedExternalLaunch {
    type V = Launch;

    open spec fn view(&self) -> Launch {
        match self {
            ClassifiedExternalLaunch::Directory(path) => Launch::Directory(path@),
            ClassifiedExternalLaunch::Reveal { parent, target } => Launch::Reveal {
                parent: parent@,
                target: target@,
            },
        }
    }
}

/// A file, or anything that is to be selected, is shown in its parent when it has one.
pub open spec fn classified(path: Seq<u16>, select: bool, is_directory: Option<bool>) -> Launch {
    if select || is_directory == Some(false) {
        match winpath::path_parent(path) {
            Some(parent) => if parent.len() > 0 {
                Launch::Reveal { parent, target: path }
            } else {
                Launch::Directory(path)
            },
            None => Launch::Directory(path),
        }
    } else {
        Launch::Directory(path)
    }
}

impl ClassifiedExternalLaunch {
    pub fn directory(&self) -> (directory: &[u16])
        ensures
            directory@ == match self@ {
                Launch::Directory(path) => path,
                Launch::Reveal { parent, .. } => parent,
            },
    {
        match self {
            ClassifiedExternalLaunch::Directory(path) => path.as_slice(),
            ClassifiedExternalLaunch::Reveal { parent, .. } => parent.as_slice(),
        }
    }

    pub fn reveal_target(&self) -> (target: Option<&[u16]>)
        ensures
            target is Some <==> self@ is Reveal,
            target matches Some(target) ==> target@ == self@->target,
    {
        match self {
            ClassifiedExternalLaunch::Reveal { target, .. } => Some(target.as_slice()),
            ClassifiedExternalLaunch::Directory(_) => None,
        }
    }
}

fn reveal_or_directory(path: Vec<u16>) -> (launch: ClassifiedExternalLaunch)
    ensures
        launch@ == classified(path@, true, None),
{
    match parent_of(path.as_slice()) {
        Some(parent) => if parent.len() > 0 {
            ClassifiedExternalLaunch::Reveal { parent, target: path }
        } else {
            ClassifiedExternalLaunch::Directory(path)
        },
        None => ClassifiedExternalLaunch::Directory(path),
    }
}

/// What a launch leads to, given what is known of the path: a directory, something else, or
/// nothing that can be read.
pub fn classify_external_launch_kind(
    item: &ExternalLaunchPath,
    is_directory: Option<bool>,
) -> (launch: ClassifiedExternalLaunch)
    ensures
        launch@ == classified(item.path@, item.select, is_directory),
{
    let path = units_copy_all(item.path.as_slice());
    let file = match is_directory {
        Some(directory) => !directory,
        None => false,
    };
    if item.select || file {
        reveal_or_directory(path)
    } else {
        ClassifiedExternalLaunch::Directory(path)
    }
}

/// Classifies each launch; `kinds` says of each path what is known of it.
pub fn classify_external_launches(
    items: &[ExternalLaunchPath],
    kinds: &[Option<bool>],
) -> (launches: Vec<ClassifiedExternalLaunch>)
    requires
        items@.len() == kinds@.len(),
    ensures
        launches@.len() == items@.len(),
        forall|i: int|
            0 <= i < items@.len() ==> (#[trigger] launches@[i])@ == classified(
                items@[i].path@,
                items@[i].select,
                kinds@[i],
            ),
{
    let mut launches: Vec<ClassifiedExternalLaunch> = Vec::new();
    let mut i: usize = 0;
    while i < items.len()
        invariant
            i <= items@.len(),
            items@.len() == kinds@.len(),
            launches@.len() == i,
            forall|j: int|
                0 <= j < i ==> (#[trigger] launches@[j])@ == classified(
                    items@[j].path@,
                    items@[j].select,
                    kinds@[j],
                ),
        decreases items@.len() - i,
    {
        launches.push(classify_external_launch_kind(&items[i], kinds[i]));
        i += 1;
    }
    launches
}

#[derive(Debug, Clone, PartialEq, Eq)]
pub enum ParsedExternalArgument {
    SelectNext,
    Launch(ExternalLaunchPath),
}

/// An argument as a value.
pub enum Argument {
    SelectNext,
    Launch { path: Seq<u16>, select: bool },
}

impl View for ParsedExternalArgument {
    type V = Argument;

    open spec fn view(&self) -> Argument {
        match self {
            ParsedExternalArgument::SelectNext => Argument::SelectNext,
            ParsedExternalArgument::Launch(launch) => Argument::Launch {
                path: launch.path@,
                select: launch.select,
            },
        }
    }
}

/// The word `select` behind a slash or a dash, in either case.
pub open spec fn is_select_flag(s: Seq<u16>) -> bool {
    &&& s.len() == 7
    &&& s[0] == SLASH || s[0] == 0x2d
    &&& wide::ascii_lower(s.subrange(1, 7)) == seq![0x73u16, 0x65, 0x6c, 0x65, 0x63, 0x74]
}

/// What an argument of a launch asks for.
pub open spec fn parsed_argument(s: Seq<u16>) -> Argument {
    if is_select_flag(s) {
        Argument::SelectNext
    } else if s.len() >= 8 && is_select_flag(s.subrange(0, 7)) && s[7] == COMMA {
        Argument::Launch {
            path: launch_path(unquoted(s.subrange(8, s.len() as int))),
            select: true,
        }
    } else {
        Argument::Launch { path: launch_path(s), select: false }
    }
}

fn starts_with_select_flag(s: &[u16]) -> (flag: bool)
    ensures
        flag == (s@.len() >= 7 && is_select_flag(s@.subrange(0, 7))),
{
    if s.len() < 7 {
        return false;
    }
    let flag = (s[0] == SLASH || s[0] == 0x2d) && lower_unit(s[1]) == 0x73 && lower_unit(s[2])
        == 0x65 && lower_unit(s[3]) == 0x6c && lower_unit(s[4]) == 0x65 && lower_unit(s[5]) == 0x63
        && lower_unit(s[6]) == 0x74;
    proof {
        let word = wide::ascii_lower(s@.subrange(0, 7).subrange(1, 7));
        let wanted = seq![0x73u16, 0x65, 0x6c, 0x65, 0x63, 0x74];
        assert(word.len() == 6);
        if flag {
            assert(word =~= wanted);
        } else if s@[0] == SLASH || s@[0] == 0x2d {
            assert(word[0] == wide::lower_unit_spec(s@[1]));
            assert(word[1] == wide::lower_unit_spec(s@[2]));
            assert(word[2] == wide::lower_unit_spec(s@[3]));
            assert(word[3] == wide::lower_unit_spec(s@[4]));
            assert(word[4] == wide::lower_unit_spec(s@[5]));
            assert(word[5] == wide::lower_unit_spec(s@[6]));
        }
    }
    flag
}

fn strip_outer_quotes(value: &[u16]) -> (inner: Vec<u16>)
    ensures
        inner@ == unquoted(value@),
{
    let n: usize = value.len();
    if n >= 2 && value[0] == QUOTE && value[n - 1] == QUOTE {
        units_copy(value, 1, n - 1)
    } else {
        units_copy_all(value)
    }
}

/// Reads one argument of a launch: `/select`, `/select,path` or a path.
pub fn parse_external_argument(argument: &[u16]) -> (parsed: ParsedExternalArgument)
    ensures
        parsed@ == parsed_argument(argument@),
{
    let n: usize = argument.len();
    if starts_with_select_flag(argument) {
        if n == 7 {
            assert(argument@.subrange(0, 7) =~= argument@);
            return ParsedExternalArgument::SelectNext;
        }
        if argument[7] == COMMA {
            let inner = strip_outer_quotes(vstd::slice::slice_subrange(argument, 8, n));
            return ParsedExternalArgument::Launch(ExternalLaunchPath::select(inner));
        }
    }
    assert(n == 7 ==> argument@.subrange(0, 7) =~= argument@);
    ParsedExternalArgument::Launch(ExternalLaunchPath::open(units_copy_all(argument)))
}

/// A repaired drive root needs no further repair.
pub proof fn law_repair_is_idempotent(s: Seq<u16>)
    ensures
        drive_root_repaired(drive_root_repaired(s)) == drive_root_repaired(s),
{
}

/// A finished address holds no slash, and finishing it again changes nothing.
pub proof fn law_address_path_is_stable(s: Seq<u16>)
    ensures
        !address_path(s).contains(SLASH),
        address_path(address_path(s)) == address_path(s),
{
    let back = with_backslashes(s);
    let path = address_path(s);
    assert(forall|i: int| 0 <= i < back.len() ==> back[i] != SLASH);
    assert(forall|i: int| 0 <= i < path.len() ==> path[i] != SLASH);
    assert(with_backslashes(path) =~= path);
    law_repair_is_idempotent(back);
}

/// A launch that reveals something reveals the launched path itself.
pub proof fn law_reveal_keeps_target(path: Seq<u16>, select: bool, is_directory: Option<bool>)
    ensures
        classified(path, select, is_directory) matches Launch::Reveal { target, .. } ==> target
            == path,
        classified(path, select, is_directory) matches Launch::Directory(directory) ==> directory
            == path,
{
}

/// What is typed is taken without the white space and the one pair of quotes around it.
pub proof fn law_quotes_around_an_address_are_dropped(
    plain: &str,
    quoted: &str,
    a: Vec<u16>,
    b: Vec<u16>,
)
    requires
        plain@.len() > 0,
        !text::is_white_space(plain@[0]) && !text::is_white_space(plain@.last()),
        plain@[0] != '"',
        quoted@ == seq![' ', '"'] + plain@ + seq!['"', ' '],
        call_ensures(address_source, (plain,), a),
        call_ensures(address_source, (quoted,), b),
    ensures
        a@ == text::utf16_encoded(plain@),
        b@ == a@,
{
    let inner = seq!['"'] + plain@ + seq!['"'];
    let tail = quoted@.subrange(1, quoted@.len() as int);
    assert(tail =~= inner.push(' '));
    assert(tail.drop_last() =~= inner);
    reveal_with_fuel(text::trim_start_spec, 3);
    reveal_with_fuel(text::trim_end_spec, 3);
    assert(text::trimmed(plain@) == plain@);
    assert(inner.last() == '"');
    assert(text::trimmed(quoted@) == inner);
    assert(inner.subrange(1, inner.len() - 1) =~= plain@);
}

/// A finished address has a backslash for each slash and is otherwise as typed; only to the bare
/// name of a drive its root is added.
pub proof fn law_an_address_keeps_its_text(expanded: Vec<u16>, path: Vec<u16>)
    requires
        call_ensures(finish_address_path, (expanded,), path),
    ensures
        forall|i: int|
            0 <= i < expanded@.len() && expanded@[i] == 0x2f ==> #[trigger] path@[i] == 0x5c,
        forall|i: int|
            0 <= i < expanded@.len() && expanded@[i] != 0x2f && !(i == 2 && expanded@.len() == 3
                && expanded@[i] == 0x22) ==> #[trigger] path@[i] == expanded@[i],
        expanded@.len() != 2 ==> path@.len() == expanded@.len(),
        expanded@.len() == 2 && expanded@[1] == 0x3a && (0x41 <= expanded@[0] <= 0x5a || 0x61
            <= expanded@[0] <= 0x7a) ==> path@ == expanded@.push(0x5c),
        expanded@.len() == 2 && expanded@[1] != 0x3a ==> path@.len() == 2,
        expanded@.len() == 3 && expanded@[2] == 0x22 && expanded@[1] == 0x3a && (0x41
            <= expanded@[0] <= 0x5a || 0x61 <= expanded@[0] <= 0x7a) ==> path@[2] == 0x5c,
{
    if expanded@.len() == 2 && expanded@[1] == 0x3a {
        assert(with_backslashes(expanded@).len() == 2);
        assert(with_backslashes(expanded@)[1] == 0x3a);
        if 0x41 <= expanded@[0] <= 0x5a || 0x61 <= expanded@[0] <= 0x7a {
            assert(path@ =~= expanded@.push(0x5c));
        }
    }
}

/// Variables are looked for only where there is a percent sign, and a text that the system could not
/// expand stays as it is; what it wrote is taken without its closing zero.
pub proof fn law_variables_are_expanded(
    input: &[u16],
    required: u32,
    written: u32,
    output: &[u16],
    expanded: Vec<u16>,
)
    requires
        call_ensures(expand_environment_strings, (input, required, written, output), expanded),
    ensures
        (forall|i: int| 0 <= i < input@.len() ==> input@[i] != 0x25) ==> expanded@ == input@,
        required == 0 || written == 0 || written > output@.len() ==> expanded@ == input@,
        required > 0 && 0 < written <= output@.len() && (exists|i: int|
            0 <= i < input@.len() && input@[i] == 0x25) ==> expanded@.push(output@[written - 1])
            == output@.subrange(0, written as int),
{
    if required > 0 && 0 < written <= output@.len() && input@.contains(0x25) {
        assert(expanded@.push(output@[written - 1]) =~= output@.subrange(0, written as int));
    }
}

/// The path of a launch loses the `\.` that it may end in, and nothing else; a drive gets its root.
pub proof fn law_a_launch_keeps_its_path(plain: Vec<u16>, dotted: Vec<u16>, a: Vec<u16>, b: Vec<u16>)
    requires
        dotted@ == plain@ + seq![0x5cu16, 0x2e],
        call_ensures(normalize_external_launch_path, (plain,), a),
        call_ensures(normalize_external_launch_path, (dotted,), b),
    ensures
        plain@.len() > 3 && plain@.last() != 0x2e ==> a@ == plain@ && b@ == plain@,
        plain@.len() == 2 && plain@[1] == 0x3a && (0x41 <= plain@[0] <= 0x5a || 0x61 <= plain@[0]
            <= 0x7a) ==> a@ == plain@.push(0x5c) && b@ == a@,
{
    assert(dotted@.subrange(0, dotted@.len() - 2) =~= plain@);
}

/// A folder is opened and a file is shown in its folder; so is whatever is to be selected. What
/// cannot be read is opened. Only a path without a parent is opened in any case.
pub proof fn law_files_are_shown_in_their_folder(
    item: ExternalLaunchPath,
    is_directory: Option<bool>,
    launch: ClassifiedExternalLaunch,
)
    requires
        call_ensures(classify_external_launch_kind, (&item, is_directory), launch),
    ensures
        launch is Reveal ==> item.select || is_directory == Some(false),
        launch matches ClassifiedExternalLaunch::Directory(path) ==> path@ == item.path@,
        launch matches ClassifiedExternalLaunch::Reveal { parent, target } ==> target@ == item.path@
            && winpath::path_parent(item.path@) == Some(parent@) && parent@.len() > 0,
        (item.select || is_directory == Some(false)) && launch is Directory
            ==> winpath::path_parent(item.path@) is None || winpath::path_parent(
            item.path@,
        )->0.len() == 0,
{
}

/// Each of several launches leads where it would lead alone.
pub proof fn law_launches_are_told_apart_one_by_one(
    items: &[ExternalLaunchPath],
    kinds: &[Option<bool>],
    launches: Vec<ClassifiedExternalLaunch>,
    i: int,
    alone: ClassifiedExternalLaunch,
    directory: &[u16],
    target: Option<&[u16]>,
)
    requires
        items@.len() == kinds@.len(),
        0 <= i < items@.len(),
        call_ensures(classify_external_launches, (items, kinds), launches),
        call_ensures(classify_external_launch_kind, (&items@[i], kinds@[i]), alone),
        call_ensures(ClassifiedExternalLaunch::directory, (&launches@[i],), directory),
        call_ensures(ClassifiedExternalLaunch::reveal_target, (&launches@[i],), target),
    ensures
        launches@.len() == items@.len(),
        launches@[i] is Reveal <==> alone is Reveal,
        target is Some <==> alone is Reveal,
        target matches Some(shown) ==> shown@ == items@[i].path@ && winpath::path_parent(shown@)
            == Some(directory@),
        target is None ==> directory@ == items@[i].path@,
{
    assert(launches@[i]@ == classified(items@[i].path@, items@[i].select, kinds@[i]));
}

/// The path of an argument is the argument, unless that begins with the word `select` behind a slash
/// or a dash: then it is what follows the comma, and is to be selected.
pub proof fn law_arguments_name_their_path(
    word: Seq<u16>,
    path: Vec<u16>,
    argument: &[u16],
    parsed: ParsedExternalArgument,
    normal: Vec<u16>,
)
    requires
        word == seq![0x2fu16, 0x73, 0x65, 0x6c, 0x65, 0x63, 0x74] || word == seq![
            0x2du16,
            0x53,
            0x45,
            0x4c,
            0x45,
            0x43,
            0x54,
        ],
        path@.len() > 0 && path@[0] != 0x22,
        argument@ == word.push(0x2c) + path@,
        call_ensures(parse_external_argument, (argument,), parsed),
        call_ensures(normalize_external_launch_path, (path,), normal),
    ensures
        parsed matches ParsedExternalArgument::Launch(launch) && launch.select && launch.path@
            == normal@,
{
    let flag = argument@.subrange(0, 7);
    assert(flag =~= word);
    assert(wide::ascii_lower(flag.subrange(1, 7)) =~= seq![0x73u16, 0x65, 0x6c, 0x65, 0x63, 0x74]);
    assert(argument@.subrange(8, argument@.len() as int) =~= path@);
}

/// An argument that does not begin with a slash or a dash is a path to be opened.
pub proof fn law_other_arguments_are_opened(
    argument: &[u16],
    path: Vec<u16>,
    parsed: ParsedExternalArgument,
    normal: Vec<u16>,
)
    requires
        path@ == argument@,
        argument@.len() == 0 || (argument@[0] != 0x2f && argument@[0] != 0x2d),
        call_ensures(parse_external_argument, (argument,), parsed),
        call_ensures(normalize_external_launch_path, (path,), normal),
    ensures
        parsed matches ParsedExternalArgument::Launch(launch) && !launch.select && launch.path@
            == normal@,
{
}

/// A launch opens or selects its path, as asked.
pub proof fn law_a_launch_does_as_asked(
    path: Vec<u16>,
    normal: Vec<u16>,
    opened: ExternalLaunchPath,
    selected: ExternalLaunchPath,
)
    requires
        call_ensures(normalize_external_launch_path, (path,), normal),
        call_ensures(ExternalLaunchPath::open, (path,), opened),
        call_ensures(ExternalLaunchPath::select, (path,), selected),
    ensures
        !opened.select && selected.select,
        opened.path@ == normal@ && selected.path@ == normal@,
{
}

/// An address is finished from what the system made of its variables where it has any, and else from
/// what was typed.
pub proof fn law_an_address_is_expanded_then_finished(
    input: &str,
    source: Vec<u16>,
    shown: &[u16],
    needed: bool,
    expanded: Vec<u16>,
    from_source: Vec<u16>,
    from_expanded: Vec<u16>,
    path: Vec<u16>,
    without: Vec<u16>,
)
    requires
        call_ensures(address_source, (input,), source),
        shown@ == source@,
        call_ensures(needs_expansion, (shown,), needed),
        call_ensures(finish_address_path, (source,), from_source),
        call_ensures(finish_address_path, (expanded,), from_expanded),
        call_ensures(normalize_address_path, (input, Some(expanded)), path),
        call_ensures(normalize_address_path, (input, None::<Vec<u16>>), without),
    ensures
        needed <==> exists|i: int| 0 <= i < source@.len() && source@[i] == 0x25,
        needed ==> path@ == from_expanded@,
        !needed ==> path@ == from_source@,
        without@ == from_source@,
{
}

} // verus!
