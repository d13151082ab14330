//! The helper process: what it is told to do, and how long it is waited for.
use vstd::prelude::*;

use crate::errors;
use crate::errors::{ErrorKind, IoError};
use crate::text;
use crate::text::{chars_eq, decode_lossy, encode_text, push_text, str_chars, text_of};
use crate::wide::units_eq;
use crate::windows::network as network_rules;
use crate::windows::network::results;
use crate::windows::network::results::HelperItem;
use crate::windows::network::stream::ExitReport;
use crate::windows::network::{
    network_auth_error, NetworkAuthError, NetworkDevice, NetworkResult, NetworkRootItem,
    ERROR_CANCELLED, ERROR_GEN_FAILURE, ERROR_TIMEOUT,
};
use crate::winpath;

verus! {

pub const ISOLATED_TIMEOUT_MS: u64 = 10_000;

pub const ISOLATED_POLL_MS: u64 = 20;

/// The process gets no console window.
pub const CREATE_NO_WINDOW: u32 = 0x0800_0000;

/// What the helper process is asked for.
#[derive(Debug, Clone, Copy, PartialEq, Eq, Structural)]
pub enum ChildMode {
    Directory,
    Connect,
    Disconnect,
    FileMutation,
    Devices,
    Root,
}

pub open spec fn mode_name(mode: ChildMode) -> Seq<char> {
    match mode {
        ChildMode::Directory => "directory"@,
        ChildMode::Connect => "connect"@,
        ChildMode::Disconnect => "disconnect"@,
        ChildMode::FileMutation => "file-mutation"@,
        ChildMode::Devices => "devices"@,
        ChildMode::Root => "root"@,
    }
}

pub open spec fn mode_named(name: Seq<char>) -> Option<ChildMode> {
    if name == "directory"@ {
        Some(ChildMode::Directory)
    } else if name == "connect"@ {
        Some(ChildMode::Connect)
    } else if name == "disconnect"@ {
        Some(ChildMode::Disconnect)
    } else if name == "file-mutation"@ {
        Some(ChildMode::FileMutation)
    } else if name == "devices"@ {
        Some(ChildMode::Devices)
    } else if name == "root"@ {
        Some(ChildMode::Root)
    } else {
        None
    }
}

pub open spec fn mode_timeout(mode: ChildMode) -> Option<u64> {
    if mode == ChildMode::FileMutation {
        None
    } else {
        Some(ISOLATED_TIMEOUT_MS)
    }
}

/// The process has been waited for as long as its task may take.
pub open spec fn time_is_up(mode: ChildMode, elapsed_ms: u128) -> bool {
    mode_timeout(mode) matches Some(limit) && elapsed_ms >= limit
}

impl ChildMode {
    pub fn name(self) -> (name: &'static str)
        ensures
            name@ == mode_name(self),
    {
        match self {
            ChildMode::Directory => "directory",
            ChildMode::Connect => "connect",
            ChildMode::Disconnect => "disconnect",
            ChildMode::FileMutation => "file-mutation",
            ChildMode::Devices => "devices",
            ChildMode::Root => "root",
        }
    }

    /// How long the process is waited for. A change of files is never broken off for its length.
    pub fn timeout_ms(self) -> (timeout: Option<u64>)
        ensures
            timeout == mode_timeout(self),
    {
        match self {
            ChildMode::FileMutation => None,
            _ => Some(ISOLATED_TIMEOUT_MS),
        }
    }
}

fn is_name(chars: &Vec<char>, name: &str) -> (equal: bool)
    ensures
        equal == (chars@ == name@),
{
    let wanted = str_chars(name);
    chars_eq(chars, &wanted)
}

/// The task that the arguments of a process name.
pub open spec fn child_mode(args: Seq<Seq<u16>>) -> Result<Option<ChildMode>, Seq<char>> {
    if args.len() < 2 || args[1] != text::utf16_encoded("--asterfiles-network-child"@) {
        Ok(None)
    } else if args.len() != 5 {
        Err("invalid network helper arguments"@)
    } else {
        match mode_named(text::utf16_lossy(args[2])) {
            Some(mode) => Ok(Some(mode)),
            None => Err("unknown network helper mode"@),
        }
    }
}

/// Whether a process was started as a helper, and for what.
pub fn try_run_child_from_args(args: &[Vec<u16>]) -> (result: Result<Option<ChildMode>, IoError>)
    ensures
        match (result, child_mode(winpath::path_views(args@))) {
            (Ok(mode), Ok(found)) => mode == found,
            (Err(error), Err(message)) => errors::fails_with(
                error,
                ErrorKind::InvalidInput,
                message,
            ),
            _ => false,
        },
{
    let ghost views = winpath::path_views(args@);
    let n: usize = args.len();
    let prefix = encode_text("--asterfiles-network-child");
    if n < 2 {
        return Ok(None);
    }
    assert(views[1] == args@[1]@);
    if !units_eq(&args[1], &prefix) {
        return Ok(None);
    }
    if n != 5 {
        return Err(IoError::new(ErrorKind::InvalidInput, "invalid network helper arguments"));
    }
    assert(views[2] == args@[2]@);
    let mode = decode_lossy(&args[2]);
    if is_name(&mode, "directory") {
        Ok(Some(ChildMode::Directory))
    } else if is_name(&mode, "connect") {
        Ok(Some(ChildMode::Connect))
    } else if is_name(&mode, "disconnect") {
        Ok(Some(ChildMode::Disconnect))
    } else if is_name(&mode, "file-mutation") {
        Ok(Some(ChildMode::FileMutation))
    } else if is_name(&mode, "devices") {
        Ok(Some(ChildMode::Devices))
    } else if is_name(&mode, "root") {
        Ok(Some(ChildMode::Root))
    } else {
        Err(IoError::new(ErrorKind::InvalidInput, "unknown network helper mode"))
    }
}

/// A task is recognised by its name.
pub proof fn law_modes_are_told_apart(mode: ChildMode)
    ensures
        mode_named(mode_name(mode)) == Some(mode),
{
    reveal_strlit("directory");
    reveal_strlit("connect");
    reveal_strlit("disconnect");
    reveal_strlit("file-mutation");
    reveal_strlit("devices");
    reveal_strlit("root");
    assert("directory"@.len() == 9);
    assert("connect"@.len() == 7);
    assert("disconnect"@.len() == 10);
    assert("file-mutation"@.len() == 13);
    assert("devices"@.len() == 7);
    assert("root"@.len() == 4);
    assert("connect"@[0] == 'c');
    assert("devices"@[0] == 'd');
}

/// What follows while the process is waited for.
#[derive(Debug, Clone, PartialEq, Eq)]
pub enum HelperStep {
    Wait,
    ReadOutput,
    Failed(IoError),
    Kill(IoError),
}

/// The process is waited for until it ends, until it is no longer wanted, or until its time is up.
/// `elapsed_ms` counts from its start.
pub fn run_isolated(
    mode: ChildMode,
    exit: Option<ExitReport>,
    cancelled: bool,
    elapsed_ms: u128,
) -> (step: HelperStep)
    ensures
        match exit {
            Some(exit) => if exit.success {
                step is ReadOutput
            } else {
                step matches HelperStep::Failed(error) && errors::fails_with(
                    error,
                    ErrorKind::Other,
                    "network helper exited with "@ + exit.text@,
                )
            },
            None => if cancelled {
                step matches HelperStep::Kill(error) && errors::fails_with(
                    error,
                    ErrorKind::Interrupted,
                    "network helper cancelled"@,
                )
            } else if time_is_up(mode, elapsed_ms) {
                step matches HelperStep::Kill(error) && errors::fails_with(
                    error,
                    ErrorKind::TimedOut,
                    "network helper timed out"@,
                )
            } else {
                step is Wait
            },
        },
{
    let expired = match mode.timeout_ms() {
        Some(limit) => elapsed_ms >= limit as u128,
        None => false,
    };
    match exit {
        Some(exit) => {
            if exit.success {
                return HelperStep::ReadOutput;
            }
            let mut text = text_of("network helper exited with ");
            push_text(&mut text, &exit.text);
            HelperStep::Failed(IoError::new(ErrorKind::Other, &text))
        },
        None => if cancelled {
            HelperStep::Kill(IoError::new(ErrorKind::Interrupted, "network helper cancelled"))
        } else if expired {
            HelperStep::Kill(IoError::new(ErrorKind::TimedOut, "network helper timed out"))
        } else {
            HelperStep::Wait
        },
    }
}

/// The failure of a connection for which the helper process gave no answer.
pub open spec fn unanswered(error: IoError) -> NetworkAuthError {
    network_rules::auth_error(
        match error.code {
            Some(code) => code as u32,
            None => match error.kind {
                ErrorKind::Interrupted => ERROR_CANCELLED,
                ErrorKind::TimedOut => ERROR_TIMEOUT,
                _ => ERROR_GEN_FAILURE,
            },
        },
    )
}

fn auth_failure(error: &IoError) -> (failure: NetworkAuthError)
    ensures
        failure == unanswered(*error),
{
    let code: u32 = match error.code {
        Some(code) => #[verifier::truncate] (code as u32),
        None => match error.kind {
            ErrorKind::Interrupted => ERROR_CANCELLED,
            ErrorKind::TimedOut => ERROR_TIMEOUT,
            _ => ERROR_GEN_FAILURE,
        },
    };
    network_auth_error(code)
}

pub fn isolated_connect_network_share(
    answer: Result<Result<NetworkResult, NetworkAuthError>, IoError>,
) -> (result: Result<NetworkResult, NetworkAuthError>)
    ensures
        result == match answer {
            Ok(result) => result,
            Err(error) => Err(unanswered(error)),
        },
{
    match answer {
        Ok(result) => result,
        Err(error) => Err(auth_failure(&error)),
    }
}

pub fn isolated_force_disconnect_network_share(
    answer: Result<Result<NetworkResult, NetworkAuthError>, IoError>,
) -> (result: Result<NetworkResult, NetworkAuthError>)
    ensures
        result == match answer {
            Ok(result) => result,
            Err(error) => Err(unanswered(error)),
        },
{
    match answer {
        Ok(result) => result,
        Err(error) => Err(auth_failure(&error)),
    }
}

impl NetworkDevice {
    pub open spec fn data(self) -> results::ItemData {
        results::ItemData {
            label: self.label@,
            target: self.target@,
            is_directory: self.is_directory,
        }
    }
}

impl NetworkRootItem {
    pub open spec fn data(self) -> results::ItemData {
        results::ItemData {
            label: self.label@,
            target: self.target@,
            is_directory: self.is_directory,
        }
    }
}

pub open spec fn device_data(devices: Seq<NetworkDevice>) -> Seq<results::ItemData> {
    Seq::new(devices.len(), |i: int| devices[i].data())
}

pub open spec fn root_data(items: Seq<NetworkRootItem>) -> Seq<results::ItemData> {
    Seq::new(items.len(), |i: int| items[i].data())
}

/// The devices that the helper process found.
pub fn isolated_network_devices(items: Vec<HelperItem>) -> (devices: Vec<NetworkDevice>)
    ensures
        device_data(devices@) == results::item_data(items@),
{
    let ghost all = items@;
    let mut left = items;
    let mut devices: Vec<NetworkDevice> = Vec::new();
    assert(left@ =~= all.subrange(0, all.len() as int));
    while left.len() > 0
        invariant
            devices@.len() + left@.len() == all.len(),
            left@ == all.subrange(devices@.len() as int, all.len() as int),
            forall|i: int| 0 <= i < devices@.len() ==> (#[trigger] devices@[i]).data()
                == all[i].data(),
        decreases left@.len(),
    {
        let ghost done = devices@.len() as int;
        let item = left.remove(0);
        assert(item == all[done]);
        devices.push(
            NetworkDevice {
                label: item.label,
                target: item.target,
                is_directory: item.is_directory,
            },
        );
        assert(left@ =~= all.subrange(done + 1, all.len() as int));
    }
    assert(device_data(devices@) =~= results::item_data(all));
    devices
}

/// The places below a network root that the helper process found.
pub fn isolated_network_root(items: Vec<HelperItem>) -> (found: Vec<NetworkRootItem>)
    ensures
        root_data(found@) == results::item_data(items@),
{
    let ghost all = items@;
    let mut left = items;
    let mut found: Vec<NetworkRootItem> = Vec::new();
    assert(left@ =~= all.subrange(0, all.len() as int));
    while left.len() > 0
        invariant
            found@.len() + left@.len() == all.len(),
            left@ == all.subrange(found@.len() as int, all.len() as int),
            forall|i: int| 0 <= i < found@.len() ==> (#[trigger] found@[i]).data()
                == all[i].data(),
        decreases left@.len(),
    {
        let ghost done = found@.len() as int;
        let item = left.remove(0);
        assert(item == all[done]);
        found.push(
            NetworkRootItem {
                label: item.label,
                target: item.target,
                is_directory: item.is_directory,
            },
        );
        assert(left@ =~= all.subrange(done + 1, all.len() as int));
    }
    assert(root_data(found@) =~= results::item_data(all));
    found
}

// ---- laws of the helper process ----

/// A process that is started for a task knows that task, and no other program is taken for one.
pub proof fn law_a_helper_knows_its_task(
    mode: ChildMode,
    name: &'static str,
    args: &[Vec<u16>],
    result: Result<Option<ChildMode>, IoError>,
)
    requires
        call_ensures(ChildMode::name, (mode,), name),
        args@.len() == 5,
        args@[1]@ == text::utf16_encoded("--asterfiles-network-child"@),
        args@[2]@ == text::utf16_encoded(name@),
        call_ensures(try_run_child_from_args, (args,), result),
    ensures
        result matches Ok(found) && found == Some(mode),
{
    let views = winpath::path_views(args@);
    assert(views.len() == 5);
    assert(views[1] == args@[1]@ && views[2] == args@[2]@);
    text::law_utf16_round_trip(name@);
    law_modes_are_told_apart(mode);
}

/// A helper that has ended well is listened to even where it is late or unwanted; one that ended
/// badly has failed. While it runs it is stopped once it is unwanted or late, and waited for
/// otherwise; a change of files is never late.
pub proof fn law_helpers_are_stopped_in_time(
    mode: ChildMode,
    exit: Option<ExitReport>,
    cancelled: bool,
    elapsed_ms: u128,
    step: HelperStep,
)
    requires
        call_ensures(run_isolated, (mode, exit, cancelled, elapsed_ms), step),
    ensures
        step is ReadOutput <==> (exit matches Some(report) && report.success),
        step is Failed <==> (exit matches Some(report) && !report.success),
        step is Kill <==> exit is None && (cancelled || (mode != ChildMode::FileMutation
            && elapsed_ms >= 10_000)),
        step matches HelperStep::Kill(error) ==> error.kind == if cancelled {
            ErrorKind::Interrupted
        } else {
            ErrorKind::TimedOut
        },
{
}

/// The answer of the helper about a connection is passed on as it is; without one the connection
/// has failed, under the number that the failure has, or that of giving up or of taking too long.
pub proof fn law_no_answer_is_a_failure(
    answer: Result<Result<NetworkResult, NetworkAuthError>, IoError>,
    connected: Result<NetworkResult, NetworkAuthError>,
    disconnected: Result<NetworkResult, NetworkAuthError>,
)
    requires
        call_ensures(isolated_connect_network_share, (answer,), connected),
        call_ensures(isolated_force_disconnect_network_share, (answer,), disconnected),
    ensures
        answer matches Ok(told) ==> connected == told && disconnected == told,
        answer matches Err(error) ==> {
            &&& connected is Err && disconnected is Err
            &&& error.code is Some && 0 <= error.code->0 ==> connected->Err_0.code == error.code->0
                && disconnected->Err_0.code == error.code->0
            &&& error.code is None && error.kind == ErrorKind::Interrupted
                ==> connected->Err_0.code == 1223 && disconnected->Err_0.code == 1223
            &&& error.code is None && error.kind == ErrorKind::TimedOut ==> connected->Err_0.code
                == 1460 && disconnected->Err_0.code == 1460
        },
{
}

/// Each place that the helper found becomes one device, and one entry of a network root, in the
/// order of the list and with all that was said of it.
pub proof fn law_found_places_are_kept(
    items: Vec<HelperItem>,
    devices: Vec<NetworkDevice>,
    roots: Vec<NetworkRootItem>,
)
    requires
        call_ensures(isolated_network_devices, (items,), devices),
        call_ensures(isolated_network_root, (items,), roots),
    ensures
        devices@.len() == items@.len() && roots@.len() == items@.len(),
        forall|i: int|
            0 <= i < items@.len() ==> {
                &&& (#[trigger] devices@[i]).label@ == items@[i].label@
                &&& devices@[i].target@ == items@[i].target@
                &&& devices@[i].is_directory == items@[i].is_directory
            },
        forall|i: int|
            0 <= i < items@.len() ==> {
                &&& (#[trigger] roots@[i]).label@ == items@[i].label@
                &&& roots@[i].target@ == items@[i].target@
                &&& roots@[i].is_directory == items@[i].is_directory
            },
{
    let data = results::item_data(items@);
    assert(device_data(devices@).len() == devices@.len());
    assert(root_data(roots@).len() == roots@.len());
    assert forall|i: int| 0 <= i < items@.len() implies {
        &&& (#[trigger] devices@[i]).label@ == items@[i].label@
        &&& devices@[i].target@ == items@[i].target@
        &&& devices@[i].is_directory == items@[i].is_directory
    } by {
        assert(device_data(devices@)[i] == data[i]);
        assert(devices@[i].data() == items@[i].data());
    }
    assert forall|i: int| 0 <= i < items@.len() implies {
        &&& (#[trigger] roots@[i]).label@ == items@[i].label@
        &&& roots@[i].target@ == items@[i].target@
        &&& roots@[i].is_directory == items@[i].is_directory
    } by {
        assert(root_data(roots@)[i] == data[i]);
        assert(roots@[i].data() == items@[i].data());
    }
}

} // verus!
