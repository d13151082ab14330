//! The probe that launches a receiver and sends it requests, without any window of its own.
use vstd::prelude::*;

use crate::errors;
use crate::errors::{ErrorKind, IoError};
use crate::shell_probe;
use crate::shell_probe::join_records;
use crate::text;
use crate::text::{encode_text, push_decimal, push_text, str_chars, text_of, texts_equal};
use crate::wide::units_eq;
use crate::windows::address_path;
use crate::windows::address_path::{normalize_external_launch_path, ExternalLaunchPath};
use crate::windows::network::stream::ExitReport;
use crate::winpath;
use crate::winpath::{join, path_eq, units_copy_all};

verus! {

/// The part that a process plays in the probe.
#[derive(Debug, PartialEq, Eq)]
pub enum ProbeRole {
    /// None: the process runs as usual.
    NoProbe,
    /// Run all cases and write the report here.
    Export(Vec<u16>),
    /// Receive a request about a folder.
    Receive { folder: Vec<u16>, output: Vec<u16>, mode: Vec<u16> },
}

pub open spec fn export_switch() -> Seq<u16> {
    text::utf16_encoded("--agent-shell-launch-probe"@)
}

pub open spec fn receive_switch() -> Seq<u16> {
    text::utf16_encoded("--agent-shell-launch-receiver"@)
}

/// The role that the arguments of a process give it.
pub fn try_run(arguments: &[Vec<u16>]) -> (result: Result<ProbeRole, String>)
    ensures
        if arguments@.len() > 0 && arguments@[0]@ == export_switch() {
            if arguments@.len() == 2 {
                result matches Ok(ProbeRole::Export(output)) && output@ == arguments@[1]@
            } else {
                result matches Err(message) && message@
                    == "shell launch probe requires an output path"@
            }
        } else if arguments@.len() > 0 && arguments@[0]@ == receive_switch() {
            if arguments@.len() == 4 {
                result matches Ok(ProbeRole::Receive { folder, output, mode }) && folder@
                    == arguments@[1]@ && output@ == arguments@[2]@ && mode@ == arguments@[3]@
            } else {
                result matches Err(message) && message@
                    == "shell launch receiver requires folder, output and mode"@
            }
        } else {
            result == Ok::<ProbeRole, String>(ProbeRole::NoProbe)
        },
{
    let n: usize = arguments.len();
    if n == 0 {
        return Ok(ProbeRole::NoProbe);
    }
    let export = encode_text("--agent-shell-launch-probe");
    if units_eq(arguments[0].as_slice(), export.as_slice()) {
        if n != 2 {
            return Err(text_of("shell launch probe requires an output path"));
        }
        return Ok(ProbeRole::Export(units_copy_all(arguments[1].as_slice())));
    }
    let receive = encode_text("--agent-shell-launch-receiver");
    if units_eq(arguments[0].as_slice(), receive.as_slice()) {
        if n != 4 {
            return Err(text_of("shell launch receiver requires folder, output and mode"));
        }
        return Ok(
            ProbeRole::Receive {
                folder: units_copy_all(arguments[1].as_slice()),
                output: units_copy_all(arguments[2].as_slice()),
                mode: units_copy_all(arguments[3].as_slice()),
            },
        );
    }
    Ok(ProbeRole::NoProbe)
}

/// The file that is selected in a folder of the probe.
pub open spec fn probe_file(folder: Seq<u16>) -> Seq<u16> {
    winpath::joined(folder, text::utf16_encoded("中文 selected file.txt"@))
}

pub fn selected_file(folder: &[u16]) -> (file: Vec<u16>)
    ensures
        file@ == probe_file(folder@),
{
    let name = encode_text("中文 selected file.txt");
    join(folder, name.as_slice())
}

/// What a receiver must be launched with: the file at once in the early case, else the folder.
pub open spec fn expected_launch(paths: Seq<ExternalLaunchPath>, mode: Seq<char>, folder: Seq<u16>) -> bool {
    &&& paths.len() == 1
    &&& paths[0].select == (mode == "early"@)
    &&& winpath::same_path(
        paths[0].path@,
        address_path::launch_path(
            if mode == "early"@ {
                probe_file(folder)
            } else {
                folder
            },
        ),
    )
}

pub fn check_launch(paths: &[ExternalLaunchPath], mode: &str, folder: &[u16]) -> (result: Result<
    (),
    IoError,
>)
    ensures
        match result {
            Ok(_) => expected_launch(paths@, mode@, folder@),
            Err(error) => !expected_launch(paths@, mode@, folder@) && errors::fails_with(
                error,
                ErrorKind::Other,
                "unexpected initial launch payload"@,
            ),
        },
{
    let early = texts_equal(mode, "early");
    let wanted = if early {
        normalize_external_launch_path(selected_file(folder))
    } else {
        normalize_external_launch_path(units_copy_all(folder))
    };
    if paths.len() == 1 && paths[0].select == early && path_eq(
        paths[0].path.as_slice(),
        wanted.as_slice(),
    ) {
        Ok(())
    } else {
        Err(IoError::new(ErrorKind::Other, "unexpected initial launch payload"))
    }
}

/// What a receiver must be told in the end: the file, but for the case of a mere folder.
pub open spec fn expected_selection(
    selected: Option<Vec<u16>>,
    mode: Seq<char>,
    folder: Seq<u16>,
) -> bool {
    match selected {
        Some(path) => mode != "directory"@ && winpath::same_path(path@, probe_file(folder)),
        None => mode == "directory"@,
    }
}

pub fn check_selection(selected: &Option<Vec<u16>>, mode: &str, folder: &[u16]) -> (result: Result<
    (),
    IoError,
>)
    ensures
        match result {
            Ok(_) => expected_selection(*selected, mode@, folder@),
            Err(error) => !expected_selection(*selected, mode@, folder@) && errors::fails_with(
                error,
                ErrorKind::Other,
                "incorrect selection or request association"@,
            ),
        },
{
    let directory = texts_equal(mode, "directory");
    let right = match selected {
        Some(path) => {
            let file = selected_file(folder);
            !directory && path_eq(path.as_slice(), file.as_slice())
        },
        None => directory,
    };
    if right {
        Ok(())
    } else {
        Err(IoError::new(ErrorKind::Other, "incorrect selection or request association"))
    }
}

/// The report of a receiver; the mode is given as it is shown, in quotes.
pub open spec fn reported(
    shown_mode: Seq<char>,
    owner_thread: u32,
    opened_ms: u64,
    complete_ms: u64,
    selected: bool,
) -> Seq<char> {
    "{\"mode\":"@ + shown_mode + ",\"owner_thread\":"@ + text::decimal(owner_thread as nat)
        + ",\"open_ms\":"@ + text::decimal(opened_ms as nat) + ",\"complete_ms\":"@ + text::decimal(
        complete_ms as nat,
    ) + ",\"selected\":"@ + (if selected {
        "true"@
    } else {
        "false"@
    }) + ",\"passed\":true}"@
}

pub fn receiver_report(
    shown_mode: &str,
    owner_thread: u32,
    opened_ms: u64,
    complete_ms: u64,
    selected: bool,
) -> (report: String)
    ensures
        report@ == reported(shown_mode@, owner_thread, opened_ms, complete_ms, selected),
{
    let mut report = text_of("{\"mode\":");
    push_text(&mut report, shown_mode);
    push_text(&mut report, ",\"owner_thread\":");
    push_decimal(&mut report, owner_thread as u64);
    push_text(&mut report, ",\"open_ms\":");
    push_decimal(&mut report, opened_ms);
    push_text(&mut report, ",\"complete_ms\":");
    push_decimal(&mut report, complete_ms);
    push_text(&mut report, ",\"selected\":");
    push_text(
        &mut report,
        if selected {
            "true"
        } else {
            "false"
        },
    );
    push_text(&mut report, ",\"passed\":true}");
    report
}

// ---- the cases ----

/// A case: its name, what its receiver is told to expect, and whether its folder lies among the
/// downloads.
#[derive(Debug, Clone, Copy, PartialEq, Eq)]
pub struct ProbeCase {
    pub name: &'static str,
    pub mode: &'static str,
    pub in_downloads: bool,
}

pub open spec fn case_views(cases: Seq<ProbeCase>) -> Seq<(Seq<char>, Seq<char>, bool)> {
    Seq::new(cases.len(), |i: int| (cases[i].name@, cases[i].mode@, cases[i].in_downloads))
}

pub fn probe_cases() -> (cases: Vec<ProbeCase>)
    ensures
        case_views(cases@) == seq![
            ("early"@, "early"@, false),
            ("late"@, "late"@, false),
            ("directory"@, "directory"@, false),
            ("downloads"@, "late"@, true),
        ],
{
    let mut cases: Vec<ProbeCase> = Vec::new();
    cases.push(ProbeCase { name: "early", mode: "early", in_downloads: false });
    cases.push(ProbeCase { name: "late", mode: "late", in_downloads: false });
    cases.push(ProbeCase { name: "directory", mode: "directory", in_downloads: false });
    cases.push(ProbeCase { name: "downloads", mode: "late", in_downloads: true });
    assert(case_views(cases@) =~= seq![
        ("early"@, "early"@, false),
        ("late"@, "late"@, false),
        ("directory"@, "directory"@, false),
        ("downloads"@, "late"@, true),
    ]);
    cases
}

/// What follows while the window of a receiver, or its end, is awaited.
#[derive(Debug, PartialEq, Eq)]
pub enum WaitStep {
    Again,
    Reached,
    Fail(String),
}

/// A window must show up within this time, in nanoseconds.
pub const WINDOW_LIMIT_NS: u128 = 5_000_000_000;

/// A receiver must end within this time, in nanoseconds.
pub const END_LIMIT_NS: u128 = 14_000_000_000;

/// A folder must open within this time, in milliseconds.
pub const OPEN_LIMIT_MS: u128 = 1500;

/// How long the selection of a late case is held back, in milliseconds.
pub const LATE_SELECTION_MS: u64 = 3200;

/// Only a window of the launched process counts; another one for the same folder is passed over.
pub fn window_step(found: Option<u32>, launched: u32, elapsed_ns: u128) -> (step: WaitStep)
    ensures
        if found == Some(launched) {
            step is Reached
        } else if elapsed_ns > WINDOW_LIMIT_NS {
            step matches WaitStep::Fail(message) && message@
                == "launched process never registered its own Shell window"@
        } else {
            step is Again
        },
{
    match found {
        Some(process) => {
            if process == launched {
                return WaitStep::Reached;
            }
        },
        None => {},
    }
    if elapsed_ns > WINDOW_LIMIT_NS {
        WaitStep::Fail(text_of("launched process never registered its own Shell window"))
    } else {
        WaitStep::Again
    }
}

/// The window must name the program by its real path.
pub fn check_executable(shown: &[u16], own: &[u16]) -> (result: Result<(), String>)
    ensures
        result is Ok <==> shown@ == own@,
        result matches Err(message) ==> message@
            == "Shell executable identity is not the real path"@,
{
    if units_eq(shown, own) {
        Ok(())
    } else {
        Err(text_of("Shell executable identity is not the real path"))
    }
}

/// The time for which a selection is held back once the window is there, where that is the case.
pub fn selection_delay(mode: &str) -> (delay: Option<u64>)
    ensures
        delay == if mode@ == "late"@ {
            Some(LATE_SELECTION_MS)
        } else {
            None
        },
{
    if texts_equal(mode, "late") {
        Some(LATE_SELECTION_MS)
    } else {
        None
    }
}

/// The folder must have been opened long before the selection that came late.
pub fn check_delivery(open_ms: u128) -> (result: Result<(), String>)
    ensures
        result is Ok <==> open_ms <= OPEN_LIMIT_MS,
        result matches Err(message) ==> message@
            == "directory delivery waited for the late selection"@,
{
    if open_ms > OPEN_LIMIT_MS {
        Err(text_of("directory delivery waited for the late selection"))
    } else {
        Ok(())
    }
}

/// Whether the receiver is sent a selection.
pub fn sends_selection(mode: &str) -> (sends: bool)
    ensures
        sends == (mode@ != "directory"@),
{
    !texts_equal(mode, "directory")
}

/// The receiver is waited for until it ends, or until its time is up.
pub fn receiver_step(exit: Option<ExitReport>, mode: &str, elapsed_ns: u128) -> (step: WaitStep)
    ensures
        match exit {
            Some(exit) => if exit.success {
                step is Reached
            } else {
                step matches WaitStep::Fail(message) && message@ == mode@ + " launcher failed: "@
                    + exit.text@
            },
            None => if elapsed_ns > END_LIMIT_NS {
                step matches WaitStep::Fail(message) && message@
                    == "launcher did not terminate after completion/expiry"@
            } else {
                step is Again
            },
        },
{
    match exit {
        Some(exit) => {
            if exit.success {
                return WaitStep::Reached;
            }
            let mut message = text_of(mode);
            push_text(&mut message, " launcher failed: ");
            push_text(&mut message, exit.text.as_str());
            WaitStep::Fail(message)
        },
        None => {
            if elapsed_ns > END_LIMIT_NS {
                WaitStep::Fail(text_of("launcher did not terminate after completion/expiry"))
            } else {
                WaitStep::Again
            }
        },
    }
}

// ---- the reports of the receivers ----

/// The part stands in the text.
pub open spec fn holds(whole: Seq<char>, part: Seq<char>) -> bool {
    exists|i: int|
        0 <= i && i + part.len() <= whole.len() && #[trigger] whole.subrange(
            i,
            i + part.len(),
        ) == part
}

fn text_holds(whole: &[char], part: &[char]) -> (found: bool)
    ensures
        found == holds(whole@, part@),
{
    if part.len() > whole.len() {
        return false;
    }
    let size: usize = whole.len();
    let last: usize = size - part.len();
    let mut i: usize = 0;
    while i <= last
        invariant
            size == whole@.len(),
            last == whole@.len() - part@.len(),
            0 <= i <= last + 1,
            forall|j: int|
                0 <= j < i ==> #[trigger] whole@.subrange(j, j + part@.len()) != part@,
        decreases last + 1 - i,
    {
        let mut n: usize = 0;
        while n < part.len() && whole[i + n] == part[n]
            invariant
                size == whole@.len(),
                last == whole@.len() - part@.len(),
                i <= last,
                n <= part@.len(),
                forall|k: int| 0 <= k < n ==> whole@[i + k] == part@[k],
            decreases part@.len() - n,
        {
            n += 1;
        }
        if n == part.len() {
            assert(whole@.subrange(i as int, i + part@.len()) =~= part@);
            return true;
        }
        assert(whole@.subrange(i as int, i + part@.len())[n as int] != part@[n as int]);
        if i == last {
            return false;
        }
        i += 1;
    }
    false
}

/// How a report names the thread that its receiver runs on.
pub open spec fn thread_mark(thread: u32) -> Seq<char> {
    "\"owner_thread\":"@ + text::decimal(thread as nat) + ","@
}

/// The window must have stayed on the thread that its process began with.
pub fn check_thread(report: &str, window_thread: u32) -> (result: Result<(), String>)
    ensures
        result is Ok <==> holds(report@, thread_mark(window_thread)),
        result matches Err(message) ==> message@
            == "Shell window moved off the launched process's main thread"@,
{
    let mut mark = text_of("\"owner_thread\":");
    push_decimal(&mut mark, window_thread as u64);
    push_text(&mut mark, ",");
    let mark = str_chars(mark.as_str());
    let chars = str_chars(report);
    if text_holds(chars.as_slice(), mark.as_slice()) {
        Ok(())
    } else {
        Err(text_of("Shell window moved off the launched process's main thread"))
    }
}

/// A receiver's report is found to name the thread that the receiver ran on.
pub proof fn law_reports_name_their_thread(
    shown_mode: Seq<char>,
    owner_thread: u32,
    opened_ms: u64,
    complete_ms: u64,
    selected: bool,
)
    ensures
        holds(
            reported(shown_mode, owner_thread, opened_ms, complete_ms, selected),
            thread_mark(owner_thread),
        ),
{
    reveal_strlit(",\"owner_thread\":");
    reveal_strlit("\"owner_thread\":");
    reveal_strlit(",\"open_ms\":");
    reveal_strlit(",");
    let whole = reported(shown_mode, owner_thread, opened_ms, complete_ms, selected);
    let mark = thread_mark(owner_thread);
    let at = ("{\"mode\":"@ + shown_mode).len() + 1int;
    assert(whole.subrange(at, at + mark.len()) =~= mark);
}

pub fn case_result(name: &str, report: &str) -> (line: String)
    ensures
        line@ == "{\"case\":\""@ + name@ + "\",\"result\":"@ + report@ + "}"@,
{
    let mut line = text_of("{\"case\":\"");
    push_text(&mut line, name);
    push_text(&mut line, "\",\"result\":");
    push_text(&mut line, report);
    push_text(&mut line, "}");
    line
}

pub fn probe_report(results: &[String]) -> (report: String)
    ensures
        report@
            == "{\"scenario\":\"shell-launcher\",\"scope\":\"cross_process_shell_receiver_no_ui\",\"cases\":["@
            + shell_probe::with_commas(shell_probe::texts(results@)) + "],\"passed\":true}\n"@,
{
    let mut report = text_of(
        "{\"scenario\":\"shell-launcher\",\"scope\":\"cross_process_shell_receiver_no_ui\",\"cases\":[",
    );
    let list = join_records(results);
    push_text(&mut report, list.as_str());
    push_text(&mut report, "],\"passed\":true}\n");
    report
}

/// A launch is the expected one where it is a single path: the file that is to be selected in the mode
/// that selects at once, and the folder, to be opened, in every other.
pub proof fn law_the_launch_is_checked(
    paths: &[ExternalLaunchPath],
    mode: &str,
    folder: &[u16],
    result: Result<(), IoError>,
    selected: Option<Vec<u16>>,
    chosen: Result<(), IoError>,
    sends: bool,
    delay: Option<u64>,
    file: Vec<u16>,
)
    requires
        call_ensures(check_launch, (paths, mode, folder), result),
        call_ensures(check_selection, (&selected, mode, folder), chosen),
        call_ensures(sends_selection, (mode,), sends),
        call_ensures(selection_delay, (mode,), delay),
        call_ensures(selected_file, (folder,), file),
    ensures
        paths@.len() != 1 ==> result is Err,
        paths@.len() == 1 && (paths@[0].select <==> mode@ != "early"@) ==> result is Err,
        paths@.len() == 1 && mode@ != "early"@ && !paths@[0].select && paths@[0].path@
            == address_path::launch_path(folder@) ==> result is Ok,
        paths@.len() == 1 && mode@ == "early"@ && paths@[0].select && paths@[0].path@
            == address_path::launch_path(file@) ==> result is Ok,
        mode@ == "directory"@ ==> (chosen is Ok <==> selected is None),
        mode@ != "directory"@ && selected is None ==> chosen is Err,
        mode@ != "directory"@ && selected is Some && selected->0@ == file@ ==> chosen is Ok,
        sends <==> mode@ != "directory"@,
        delay is Some <==> mode@ == "late"@,
        delay is Some ==> delay->0 == 3200,
{
}

/// A wait ends where what is waited for is there, fails once its time is up, and goes on otherwise.
pub proof fn law_waits_end(
    found: Option<u32>,
    launched: u32,
    elapsed_ns: u128,
    window: WaitStep,
    exit: Option<ExitReport>,
    mode: &str,
    ended: WaitStep,
    open_ms: u128,
    delivered: Result<(), String>,
)
    requires
        call_ensures(window_step, (found, launched, elapsed_ns), window),
        call_ensures(receiver_step, (exit, mode, elapsed_ns), ended),
        call_ensures(check_delivery, (open_ms,), delivered),
    ensures
        window is Reached <==> found == Some(launched),
        window is Fail <==> found != Some(launched) && elapsed_ns > 5_000_000_000,
        ended is Reached <==> exit is Some && exit->0.success,
        ended is Again <==> exit is None && elapsed_ns <= 14_000_000_000,
        exit is Some && !exit->0.success ==> ended is Fail,
        delivered is Ok <==> open_ms <= 1500,
{
}

/// A run is a probe only behind one of the two switches, and then takes its arguments in their order.
pub proof fn law_switches_choose_the_role(
    arguments: &[Vec<u16>],
    result: Result<ProbeRole, String>,
    shown: &[u16],
    own: &[u16],
    same: Result<(), String>,
)
    requires
        call_ensures(try_run, (arguments,), result),
        call_ensures(check_executable, (shown, own), same),
    ensures
        arguments@.len() == 0 ==> result is Ok && result->Ok_0 is NoProbe,
        result is Ok && result->Ok_0 is Export ==> arguments@.len() == 2 && arguments@[0]@
            == text::utf16_encoded("--agent-shell-launch-probe"@) && result->Ok_0->Export_0@
            == arguments@[1]@,
        result is Ok && result->Ok_0 is Receive ==> arguments@.len() == 4 && arguments@[0]@
            == text::utf16_encoded("--agent-shell-launch-receiver"@) && result->Ok_0->folder@
            == arguments@[1]@ && result->Ok_0->output@ == arguments@[2]@ && result->Ok_0->mode@
            == arguments@[3]@,
        same is Ok <==> shown@ == own@,
{
}

} // verus!
