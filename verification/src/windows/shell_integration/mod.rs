//! The registration of the file manager with the Shell, for the current user: as the program for
//! folders, and for the key that opens a new window.
//!
//! The values that a registration replaces are kept in a state key of its own, from which they are
//! restored.
use vstd::prelude::*;

use crate::bytes;
use crate::bytes::{push_u32, push_unit_bytes, read_u32, read_units};
use crate::errors;
use crate::errors::{ErrorKind, IoError};
use crate::text;
use crate::text::{encode_text, push_text, text_of};
use crate::wide;
use crate::wide::{lower_units, push_units, units_eq, QUOTE};
use crate::windows::shell_integration::image::{
    Registry, RegistryImage, RegistryOperation, RegistryValue, Slot, Value, REG_BINARY, REG_DWORD,
    REG_EXPAND_SZ, REG_SZ,
};
use crate::winpath;
use crate::winpath::{path_eq, units_copy_all};

pub mod image;
pub mod laws;

verus! {

#[derive(Debug, Clone, Copy, PartialEq, Eq, Structural)]
pub enum ShellIntegrationRepairReason {
    ExecutableMovedOrMissing,
    RegistryChanged,
}

#[derive(Debug, Clone, PartialEq, Eq)]
pub enum ShellIntegrationStatus {
    Disabled,
    Enabled { executable: Vec<u16> },
    NeedsRepair { bound_executable: Vec<u16>, reason: ShellIntegrationRepairReason },
}

/// The status as a mathematical value.
pub enum Status {
    Disabled,
    Enabled(Seq<u16>),
    NeedsRepair(Seq<u16>, ShellIntegrationRepairReason),
}

impl View for ShellIntegrationStatus {
    type V = Status;

    open spec fn view(&self) -> Status {
        match self {
            ShellIntegrationStatus::Disabled => Status::Disabled,
            ShellIntegrationStatus::Enabled { executable } => Status::Enabled(executable@),
            ShellIntegrationStatus::NeedsRepair { bound_executable, reason } => Status::NeedsRepair(
                bound_executable@,
                *reason,
            ),
        }
    }
}

// ---- what is registered ----

/// A command of the Shell that the file manager takes over.
#[derive(Debug, Clone, Copy)]
pub struct Target {
    pub backup_prefix: &'static str,
    pub key: &'static str,
    pub argument: Option<&'static str>,
}

/// The same as a mathematical value.
pub struct Takeover {
    pub prefix: Seq<char>,
    pub key: Seq<char>,
    pub argument: Option<Seq<char>>,
}

impl View for Target {
    type V = Takeover;

    open spec fn view(&self) -> Takeover {
        Takeover {
            prefix: self.backup_prefix@,
            key: self.key@,
            argument: match self.argument {
                Some(argument) => Some(argument@),
                None => None,
            },
        }
    }
}

pub open spec fn takeovers(targets: Seq<Target>) -> Seq<Takeover> {
    Seq::new(targets.len(), |i: int| targets[i]@)
}

pub const FOLDER_STATE: &'static str = "FolderOpen";

pub const WIN_E_STATE: &'static str = "WinE";

/// Opening and exploring folders and drives. The argument keeps a character other than a backslash
/// before the closing quote, so that the root of a drive survives the parsing of the command.
pub open spec fn folder_takeovers() -> Seq<Takeover> {
    seq![
        Takeover {
            prefix: "Open"@,
            key: "Folder\\shell\\open\\command"@,
            argument: Some("%1\\."@),
        },
        Takeover {
            prefix: "Explore"@,
            key: "Folder\\shell\\explore\\command"@,
            argument: Some("%1\\."@),
        },
    ]
}

/// The key that opens a new window.
pub open spec fn win_e_takeovers() -> Seq<Takeover> {
    seq![
        Takeover {
            prefix: "OpenNewWindow"@,
            key: "CLSID\\{52205fd8-5dfb-447d-801a-d0b52f2e83e1}\\shell\\opennewwindow\\command"@,
            argument: None,
        },
    ]
}

pub fn folder_targets() -> (targets: Vec<Target>)
    ensures
        takeovers(targets@) == folder_takeovers(),
{
    let mut targets: Vec<Target> = Vec::new();
    targets.push(
        Target {
            backup_prefix: "Open",
            key: "Folder\\shell\\open\\command",
            argument: Some("%1\\."),
        },
    );
    targets.push(
        Target {
            backup_prefix: "Explore",
            key: "Folder\\shell\\explore\\command",
            argument: Some("%1\\."),
        },
    );
    assert(takeovers(targets@) =~= folder_takeovers());
    targets
}

pub fn win_e_targets() -> (targets: Vec<Target>)
    ensures
        takeovers(targets@) == win_e_takeovers(),
{
    let mut targets: Vec<Target> = Vec::new();
    targets.push(
        Target {
            backup_prefix: "OpenNewWindow",
            key: "CLSID\\{52205fd8-5dfb-447d-801a-d0b52f2e83e1}\\shell\\opennewwindow\\command",
            argument: None,
        },
    );
    assert(takeovers(targets@) =~= win_e_takeovers());
    targets
}

/// The two keys below which commands and states lie.
#[derive(Debug, Clone)]
pub struct RegistryScope {
    pub classes_base: String,
    pub state_base: String,
}

/// The same as a mathematical value.
pub struct Scope {
    pub classes: Seq<char>,
    pub state: Seq<char>,
}

impl View for RegistryScope {
    type V = Scope;

    open spec fn view(&self) -> Scope {
        Scope { classes: self.classes_base@, state: self.state_base@ }
    }
}

pub open spec fn production_scope() -> Scope {
    Scope { classes: "Software\\Classes"@, state: "Software\\AsterFiles\\ShellIntegration"@ }
}

pub open spec fn class_key_of(scope: Scope, relative: Seq<char>) -> Seq<char> {
    scope.classes + "\\"@ + relative
}

pub open spec fn state_key_of(scope: Scope, integration: Seq<char>) -> Seq<char> {
    scope.state + "\\"@ + integration
}

impl RegistryScope {
    pub fn production() -> (scope: RegistryScope)
        ensures
            scope@ == production_scope(),
    {
        RegistryScope {
            classes_base: text_of("Software\\Classes"),
            state_base: text_of("Software\\AsterFiles\\ShellIntegration"),
        }
    }

    pub fn class_key(&self, relative: &str) -> (key: String)
        ensures
            key@ == class_key_of(self@, relative@),
    {
        let mut key = text_of(self.classes_base.as_str());
        push_text(&mut key, "\\");
        push_text(&mut key, relative);
        key
    }

    pub fn state_key(&self, integration: &str) -> (key: String)
        ensures
            key@ == state_key_of(self@, integration@),
    {
        let mut key = text_of(self.state_base.as_str());
        push_text(&mut key, "\\");
        push_text(&mut key, integration);
        key
    }
}

// ---- values ----

pub open spec fn dword(n: u32) -> Value {
    Value { value_type: REG_DWORD, data: bytes::bytes32(n) }
}

/// A text as a value, with a NUL at its end.
pub open spec fn text_value(units: Seq<u16>) -> Value {
    Value { value_type: REG_SZ, data: bytes::unit_bytes(units.push(0)) }
}

pub fn string_value(units: &[u16]) -> (value: RegistryValue)
    ensures
        value@ == text_value(units@),
{
    let mut ended = units_copy_all(units);
    ended.push(0);
    let mut data: Vec<u8> = Vec::new();
    push_unit_bytes(&mut data, ended.as_slice());
    assert(data@ =~= bytes::unit_bytes(units@.push(0)));
    RegistryValue { value_type: REG_SZ, data }
}

pub fn write_string(registry: &mut RegistryImage, key: &str, name: &str, units: &[u16])
    requires
        old(registry).consistent(),
    ensures
        final(registry)@ == old(registry)@.insert(image::slot(key@, name@), text_value(units@)),
        final(registry).consistent(),
        final(registry).origin() == old(registry).origin(),
        final(registry).grew(old(registry)),
{
    let value = string_value(units);
    registry.write_raw(key, name, value.value_type, value.data.as_slice());
}

pub fn write_dword(registry: &mut RegistryImage, key: &str, name: &str, n: u32)
    requires
        old(registry).consistent(),
    ensures
        final(registry)@ == old(registry)@.insert(image::slot(key@, name@), dword(n)),
        final(registry).consistent(),
        final(registry).origin() == old(registry).origin(),
        final(registry).grew(old(registry)),
{
    let mut data: Vec<u8> = Vec::new();
    push_u32(&mut data, n);
    assert(data@ =~= bytes::bytes32(n));
    registry.write_raw(key, name, REG_DWORD, data.as_slice());
}

/// Where a value cannot be read.
pub open spec fn shown_slot(at: Slot) -> Seq<char> {
    at.key + "\\"@ + at.name
}

/// The number at a place, if there is one.
pub open spec fn dword_in(registry: Registry, at: Slot) -> Result<Option<u32>, Seq<char>> {
    match registry.get(at) {
        None => Ok(None),
        Some(value) => if value.value_type != REG_DWORD || value.data.len() != 4 {
            Err("invalid registry DWORD "@ + shown_slot(at))
        } else {
            Ok(Some(bytes::le32(value.data, 0)))
        },
    }
}

/// The units without the NULs at their end.
pub open spec fn without_nuls(units: Seq<u16>) -> Seq<u16>
    decreases units.len(),
{
    if units.len() > 0 && units.last() == 0 {
        without_nuls(units.drop_last())
    } else {
        units
    }
}

/// The text at a place, if there is one. Variables in it are left as they are.
pub open spec fn text_in(registry: Registry, at: Slot) -> Result<Option<Seq<u16>>, Seq<char>> {
    match registry.get(at) {
        None => Ok(None),
        Some(value) => if (value.value_type != REG_SZ && value.value_type != REG_EXPAND_SZ)
            || value.data.len() % 2 != 0 {
            Err("invalid registry string "@ + shown_slot(at))
        } else {
            Ok(Some(without_nuls(bytes::units_in(value.data))))
        },
    }
}

/// The result of reading, against what can be read.
pub open spec fn reads<T>(result: Result<T, IoError>, message: Option<Seq<char>>) -> bool {
    match (result, message) {
        (Ok(_), None) => true,
        (Err(error), Some(message)) => errors::fails_with(error, ErrorKind::InvalidData, message),
        _ => false,
    }
}

pub open spec fn error_of<T>(result: Result<T, Seq<char>>) -> Option<Seq<char>> {
    match result {
        Ok(_) => None,
        Err(message) => Some(message),
    }
}

fn invalid_slot(what: &str, key: &str, name: &str) -> (error: IoError)
    ensures
        errors::fails_with(
            error,
            ErrorKind::InvalidData,
            what@ + shown_slot(image::slot(key@, name@)),
        ),
{
    let mut shown = text_of(key);
    push_text(&mut shown, "\\");
    push_text(&mut shown, name);
    let mut message = text_of(what);
    push_text(&mut message, shown.as_str());
    IoError { kind: ErrorKind::InvalidData, code: None, message }
}

pub fn read_dword(registry: &RegistryImage, key: &str, name: &str) -> (result: Result<
    Option<u32>,
    IoError,
>)
    ensures
        ({
            let found = dword_in(registry@, image::slot(key@, name@));
            reads(result, error_of(found)) && (result matches Ok(n) ==> found == Ok::<
                Option<u32>,
                Seq<char>,
            >(n))
        }),
{
    match registry.read_value(key, name) {
        None => Ok(None),
        Some(value) => {
            if value.value_type != REG_DWORD || value.data.len() != 4 {
                return Err(invalid_slot("invalid registry DWORD ", key, name));
            }
            Ok(Some(read_u32(value.data.as_slice(), 0)))
        },
    }
}

pub open spec fn units_view(value: Option<Vec<u16>>) -> Option<Seq<u16>> {
    match value {
        Some(units) => Some(units@),
        None => None,
    }
}

pub fn read_string(registry: &RegistryImage, key: &str, name: &str) -> (result: Result<
    Option<Vec<u16>>,
    IoError,
>)
    ensures
        ({
            let found = text_in(registry@, image::slot(key@, name@));
            reads(result, error_of(found)) && (result matches Ok(units) ==> found == Ok::<
                Option<Seq<u16>>,
                Seq<char>,
            >(units_view(units)))
        }),
{
    match registry.read_value(key, name) {
        None => Ok(None),
        Some(value) => {
            let n: usize = value.data.len();
            if (value.value_type != REG_SZ && value.value_type != REG_EXPAND_SZ) || n % 2 != 0 {
                return Err(invalid_slot("invalid registry string ", key, name));
            }
            let mut units = read_units(value.data.as_slice(), 0, n / 2);
            let ghost all = bytes::units_in(value.data@);
            proof {
                assert(value.data@.subrange(0, n as int) =~= value.data@);
                assert(units@ =~= all);
            }
            while units.len() > 0 && units[units.len() - 1] == 0
                invariant
                    without_nuls(units@) == without_nuls(all),
                decreases units@.len(),
            {
                let ghost before = units@;
                let _ = units.pop();
                assert(units@ =~= before.drop_last());
            }
            assert(without_nuls(units@) == units@);
            Ok(Some(units))
        },
    }
}

// ---- commands ----

/// The command that starts a program: its path in quotes, and the argument in quotes.
pub open spec fn command_text(executable: Seq<u16>, argument: Option<Seq<char>>) -> Seq<u16> {
    seq![QUOTE] + executable + seq![QUOTE] + match argument {
        Some(argument) => seq![0x20u16, QUOTE] + text::utf16_encoded(argument) + seq![QUOTE],
        None => Seq::empty(),
    }
}

pub open spec fn argument_view(argument: Option<&str>) -> Option<Seq<char>> {
    match argument {
        Some(argument) => Some(argument@),
        None => None,
    }
}

pub fn command_for(executable: &[u16], argument: Option<&str>) -> (command: Vec<u16>)
    ensures
        command@ == command_text(executable@, argument_view(argument)),
{
    let mut command: Vec<u16> = Vec::new();
    command.push(QUOTE);
    push_units(&mut command, executable);
    command.push(QUOTE);
    match argument {
        Some(argument) => {
            command.push(0x20);
            command.push(QUOTE);
            push_units(&mut command, encode_text(argument).as_slice());
            command.push(QUOTE);
        },
        None => {},
    }
    assert(command@ =~= command_text(executable@, argument_view(argument)));
    command
}

/// The name of our own program, in lower case.
pub open spec fn own_program() -> Seq<u16> {
    text::utf16_encoded("asterfiles.exe"@)
}

/// The units occur in a row somewhere.
pub open spec fn occurs(units: Seq<u16>, wanted: Seq<u16>) -> bool {
    exists|i: int|
        0 <= i && i + wanted.len() <= units.len() && #[trigger] units.subrange(
            i,
            i + wanted.len() as int,
        ) == wanted
}

/// The command starts our own program, from whatever folder.
pub open spec fn is_own_command(command: Option<Seq<u16>>) -> bool {
    match command {
        Some(command) => occurs(wide::ascii_lower(command), own_program()),
        None => false,
    }
}

pub fn command_invokes_asterfiles(command: &Option<Vec<u16>>) -> (own: bool)
    ensures
        own == is_own_command(units_view(*command)),
{
    let units = match command {
        Some(units) => units,
        None => {
            return false;
        },
    };
    let wanted = encode_text("asterfiles.exe");
    let lowered = lower_units(units.as_slice());
    let n: usize = lowered.len();
    let m: usize = wanted.len();
    if n < m {
        return false;
    }
    let last: usize = n - m;
    let mut i: usize = 0;
    while i < last
        invariant
            n == lowered@.len(),
            m == wanted@.len(),
            last == n - m,
            i <= last,
            units_view(*command) == Some(units@),
            lowered@ == wide::ascii_lower(units@),
            wanted@ == own_program(),
            forall|j: int|
                0 <= j < i ==> #[trigger] lowered@.subrange(j, j + wanted@.len() as int) != wanted@,
        decreases last - i,
    {
        let part = vstd::slice::slice_subrange(lowered.as_slice(), i, i + m);
        assert(part@ == lowered@.subrange(i as int, i as int + wanted@.len() as int));
        if units_eq(part, wanted.as_slice()) {
            return true;
        }
        i += 1;
    }
    let part = vstd::slice::slice_subrange(lowered.as_slice(), last, n);
    assert(part@ == lowered@.subrange(last as int, last as int + wanted@.len() as int));
    units_eq(part, wanted.as_slice())
}

// ---- one registration step after the other ----

/// The registry after a step, and the error that ended it.
pub struct Outcome {
    pub registry: Registry,
    pub error: Option<Seq<char>>,
}

pub open spec fn done(registry: Registry) -> Outcome {
    Outcome { registry, error: None }
}

/// A step for each of the first targets, until one fails.
pub open spec fn fold(
    registry: Registry,
    targets: Seq<Takeover>,
    n: int,
    step: spec_fn(Registry, Takeover) -> Outcome,
) -> Outcome
    decreases n,
{
    if n <= 0 {
        done(registry)
    } else {
        let before = fold(registry, targets, n - 1, step);
        if before.error is Some {
            before
        } else {
            step(before.registry, targets[n - 1])
        }
    }
}

proof fn lemma_fold_stops(
    registry: Registry,
    targets: Seq<Takeover>,
    i: int,
    n: int,
    step: spec_fn(Registry, Takeover) -> Outcome,
)
    requires
        0 <= i <= n,
        fold(registry, targets, i, step).error is Some,
    ensures
        fold(registry, targets, n, step) == fold(registry, targets, i, step),
    decreases n,
{
    if i < n {
        lemma_fold_stops(registry, targets, i, n - 1, step);
    }
}

/// The result of a step agrees with its outcome.
pub open spec fn ends_as<T>(result: Result<T, IoError>, registry: Registry, outcome: Outcome) -> bool {
    registry == outcome.registry && reads(result, outcome.error)
}

// ---- backups ----

/// The name under which a part of a backup is kept.
pub open spec fn backup_name(prefix: Seq<char>, field: Seq<char>, part: Seq<char>) -> Seq<char> {
    prefix + field + part
}

fn backup_name_text(prefix: &str, field: &str, part: &str) -> (name: String)
    ensures
        name@ == backup_name(prefix@, field@, part@),
{
    let mut name = text_of(prefix);
    push_text(&mut name, field);
    push_text(&mut name, part);
    name
}

pub open spec fn present_slot(state: Seq<char>, prefix: Seq<char>, field: Seq<char>) -> Slot {
    image::slot(state, backup_name(prefix, field, "Present"@))
}

pub open spec fn type_slot(state: Seq<char>, prefix: Seq<char>, field: Seq<char>) -> Slot {
    image::slot(state, backup_name(prefix, field, "Type"@))
}

pub open spec fn data_slot(state: Seq<char>, prefix: Seq<char>, field: Seq<char>) -> Slot {
    image::slot(state, backup_name(prefix, field, "Data"@))
}

/// The registry once a value, or that there was none, is kept.
pub open spec fn kept(
    registry: Registry,
    state: Seq<char>,
    prefix: Seq<char>,
    field: Seq<char>,
    value: Option<Value>,
) -> Registry {
    match value {
        Some(value) => registry.insert(present_slot(state, prefix, field), dword(1)).insert(
            type_slot(state, prefix, field),
            dword(value.value_type),
        ).insert(
            data_slot(state, prefix, field),
            Value { value_type: REG_BINARY, data: value.data },
        ),
        None => registry.insert(present_slot(state, prefix, field), dword(0)),
    }
}

pub fn backup_value(
    registry: &mut RegistryImage,
    state: &str,
    prefix: &str,
    field: &str,
    value: Option<RegistryValue>,
)
    requires
        old(registry).consistent(),
    ensures
        final(registry)@ == kept(
            old(registry)@,
            state@,
            prefix@,
            field@,
            image::value_view(value),
        ),
        final(registry).consistent(),
        final(registry).origin() == old(registry).origin(),
        final(registry).grew(old(registry)),
{
    let present = backup_name_text(prefix, field, "Present");
    match value {
        Some(value) => {
            write_dword(registry, state, present.as_str(), 1);
            let ghost marked = *registry;
            let kind = backup_name_text(prefix, field, "Type");
            write_dword(registry, state, kind.as_str(), value.value_type);
            let ghost typed = *registry;
            let data = backup_name_text(prefix, field, "Data");
            registry.write_raw(state, data.as_str(), REG_BINARY, value.data.as_slice());
            proof {
                image::lemma_grew_again(old(registry), &marked, &typed);
                image::lemma_grew_again(old(registry), &typed, registry);
            }
        },
        None => {
            write_dword(registry, state, present.as_str(), 0);
        },
    }
}

/// The places of a command and of the handler that would run in its stead.
pub open spec fn command_slot(scope: Scope, target: Takeover) -> Slot {
    image::slot(class_key_of(scope, target.key), ""@)
}

pub open spec fn delegate_slot(scope: Scope, target: Takeover) -> Slot {
    image::slot(class_key_of(scope, target.key), "DelegateExecute"@)
}

/// Keeps what a registration will replace; a command of our own counts as none.
pub open spec fn backup_step(
    registry: Registry,
    scope: Scope,
    state: Seq<char>,
    target: Takeover,
) -> Outcome {
    match text_in(registry, command_slot(scope, target)) {
        Err(message) => Outcome { registry, error: Some(message) },
        Ok(command) => {
            let own = is_own_command(command);
            let default = if own {
                None
            } else {
                registry.get(command_slot(scope, target))
            };
            let delegate = if own {
                None
            } else {
                registry.get(delegate_slot(scope, target))
            };
            done(
                kept(
                    kept(registry, state, target.prefix, "Default"@, default),
                    state,
                    target.prefix,
                    "DelegateExecute"@,
                    delegate,
                ),
            )
        },
    }
}

pub open spec fn backup_steps(scope: Scope, state: Seq<char>) -> spec_fn(
    Registry,
    Takeover,
) -> Outcome {
    |registry: Registry, target: Takeover| backup_step(registry, scope, state, target)
}

fn backup_target_values(
    registry: &mut RegistryImage,
    scope: &RegistryScope,
    state: &str,
    target: Target,
) -> (result: Result<(), IoError>)
    requires
        old(registry).consistent(),
    ensures
        ends_as(
            result,
            final(registry)@,
            backup_step(old(registry)@, scope@, state@, target@),
        ),
        final(registry).consistent(),
        final(registry).origin() == old(registry).origin(),
        final(registry).grew(old(registry)),
{
    proof {
        image::lemma_grew_by_nothing(registry);
    }
    let key = scope.class_key(target.key);
    let command = match read_string(registry, key.as_str(), "") {
        Ok(command) => command,
        Err(error) => {
            return Err(error);
        },
    };
    let own = command_invokes_asterfiles(&command);
    let default = if own {
        None
    } else {
        registry.read_value(key.as_str(), "")
    };
    let delegate = if own {
        None
    } else {
        registry.read_value(key.as_str(), "DelegateExecute")
    };
    backup_value(registry, state, target.backup_prefix, "Default", default);
    let ghost half = *registry;
    backup_value(registry, state, target.backup_prefix, "DelegateExecute", delegate);
    proof {
        image::lemma_grew_again(old(registry), &half, registry);
    }
    Ok(())
}

// ---- taking over ----

/// The command and the handler are those of a registration for this program.
pub open spec fn is_owned(
    registry: Registry,
    scope: Scope,
    target: Takeover,
    executable: Seq<u16>,
) -> bool {
    registry.get(command_slot(scope, target)) == Some(
        text_value(command_text(executable, target.argument)),
    ) && registry.get(delegate_slot(scope, target)) == Some(text_value(Seq::empty()))
}

fn values_equal(found: Option<RegistryValue>, wanted: &RegistryValue) -> (equal: bool)
    ensures
        equal == (image::value_view(found) == Some(wanted@)),
{
    match found {
        None => false,
        Some(value) => {
            if value.value_type != wanted.value_type || value.data.len() != wanted.data.len() {
                return false;
            }
            let mut i: usize = 0;
            while i < value.data.len()
                invariant
                    image::value_view(found) == Some(value@),
                    value.data@.len() == wanted.data@.len(),
                    i <= value.data@.len(),
                    forall|j: int| 0 <= j < i ==> value.data@[j] == wanted.data@[j],
                decreases value.data@.len() - i,
            {
                if value.data[i] != wanted.data[i] {
                    return false;
                }
                i += 1;
            }
            assert(value.data@ =~= wanted.data@);
            true
        },
    }
}

pub fn target_is_owned(
    registry: &RegistryImage,
    scope: &RegistryScope,
    target: Target,
    executable: &[u16],
) -> (owned: bool)
    ensures
        owned == is_owned(registry@, scope@, target@, executable@),
{
    let key = scope.class_key(target.key);
    let command = command_for(executable, target.argument);
    let wanted = string_value(command.as_slice());
    if !values_equal(registry.read_value(key.as_str(), ""), &wanted) {
        return false;
    }
    let nothing: Vec<u16> = Vec::new();
    assert(nothing@ =~= Seq::<u16>::empty());
    let empty = string_value(nothing.as_slice());
    values_equal(registry.read_value(key.as_str(), "DelegateExecute"), &empty)
}

pub open spec fn apply_step(
    registry: Registry,
    scope: Scope,
    executable: Seq<u16>,
    target: Takeover,
) -> Outcome {
    done(
        registry.insert(
            command_slot(scope, target),
            text_value(command_text(executable, target.argument)),
        ).insert(delegate_slot(scope, target), text_value(Seq::empty())),
    )
}

pub open spec fn apply_steps(scope: Scope, executable: Seq<u16>) -> spec_fn(
    Registry,
    Takeover,
) -> Outcome {
    |registry: Registry, target: Takeover| apply_step(registry, scope, executable, target)
}

pub open spec fn active_slot(state: Seq<char>) -> Slot {
    image::slot(state, "Active"@)
}

pub open spec fn bound_slot(state: Seq<char>) -> Slot {
    image::slot(state, "BoundExecutable"@)
}

pub open spec fn complete_slot(state: Seq<char>) -> Slot {
    image::slot(state, "BackupComplete"@)
}

/// The registry once all backups are made, for the first registration.
pub open spec fn backup_outcome(
    registry: Registry,
    scope: Scope,
    state: Seq<char>,
    targets: Seq<Takeover>,
    executable: Seq<u16>,
) -> Outcome {
    let backed = fold(registry, targets, targets.len() as int, backup_steps(scope, state));
    if backed.error is Some {
        Outcome { registry: image::without_tree(backed.registry, state), error: backed.error }
    } else {
        done(
            backed.registry.insert(bound_slot(state), text_value(executable)).insert(
                complete_slot(state),
                dword(1),
            ),
        )
    }
}

/// The registry once the commands are taken over.
pub open spec fn applied(
    registry: Registry,
    scope: Scope,
    state: Seq<char>,
    targets: Seq<Takeover>,
    executable: Seq<u16>,
) -> Registry {
    fold(
        registry.insert(bound_slot(state), text_value(executable)),
        targets,
        targets.len() as int,
        apply_steps(scope, executable),
    ).registry.insert(active_slot(state), dword(1))
}

/// A registration: backups are made unless they are complete, then the commands are taken over.
pub open spec fn enable_outcome(
    registry: Registry,
    scope: Scope,
    integration: Seq<char>,
    targets: Seq<Takeover>,
    executable: Seq<u16>,
) -> Outcome {
    let state = state_key_of(scope, integration);
    match dword_in(registry, complete_slot(state)) {
        Err(message) => Outcome { registry, error: Some(message) },
        Ok(Some(1)) => done(applied(registry, scope, state, targets, executable)),
        Ok(_) => {
            let backed = backup_outcome(registry, scope, state, targets, executable);
            if backed.error is Some {
                backed
            } else {
                done(applied(backed.registry, scope, state, targets, executable))
            }
        },
    }
}

/// How far the logged operations of a registration go.
#[derive(Debug, Clone, Copy, PartialEq, Eq, Structural)]
pub struct EnablePlan {
    /// The backups were complete before.
    pub had_backup: bool,
    /// The number of operations up to the end of the backups.
    pub backup_operations: usize,
}

/// The plan says whether the backups were complete before, and how many of the logged operations
/// lead to the registry that has them.
pub open spec fn is_plan(
    plan: EnablePlan,
    before: Registry,
    registry: RegistryImage,
    scope: Scope,
    integration: Seq<char>,
    targets: Seq<Takeover>,
    executable: Seq<u16>,
) -> bool {
    let state = state_key_of(scope, integration);
    &&& plan.had_backup == (dword_in(before, complete_slot(state)) == Ok::<
        Option<u32>,
        Seq<char>,
    >(Some(1)))
    &&& plan.backup_operations <= registry.logged().len()
    &&& image::replayed(
        registry.origin(),
        registry.logged().subrange(0, plan.backup_operations as int),
    ) == if plan.had_backup {
        before
    } else {
        backup_outcome(before, scope, state, targets, executable).registry
    }
}

/// What to do when an operation of a registration cannot be carried out.
#[derive(Debug, Clone, Copy, PartialEq, Eq, Structural)]
pub enum Recovery {
    /// Leave everything as it is.
    Leave,
    /// Delete the state key.
    DropState,
    /// Restore the backups, then delete the state key.
    RollBack,
}

/// What to do when the operation with this number cannot be carried out.
pub fn recovery(plan: EnablePlan, failed: usize) -> (recovery: Recovery)
    ensures
        recovery == if plan.had_backup {
            Recovery::Leave
        } else if failed < plan.backup_operations {
            Recovery::DropState
        } else {
            Recovery::RollBack
        },
{
    if plan.had_backup {
        Recovery::Leave
    } else if failed < plan.backup_operations {
        Recovery::DropState
    } else {
        Recovery::RollBack
    }
}

fn apply_target(
    registry: &mut RegistryImage,
    scope: &RegistryScope,
    target: Target,
    executable: &[u16],
)
    requires
        old(registry).consistent(),
    ensures
        final(registry)@ == apply_step(
            old(registry)@,
            scope@,
            executable@,
            target@,
        ).registry,
        final(registry).consistent(),
        final(registry).origin() == old(registry).origin(),
        final(registry).grew(old(registry)),
{
    let key = scope.class_key(target.key);
    let command = command_for(executable, target.argument);
    write_string(registry, key.as_str(), "", command.as_slice());
    let ghost half = *registry;
    let nothing: Vec<u16> = Vec::new();
    assert(nothing@ =~= Seq::<u16>::empty());
    write_string(registry, key.as_str(), "DelegateExecute", nothing.as_slice());
    proof {
        image::lemma_grew_again(old(registry), &half, registry);
    }
}

fn make_backups(
    registry: &mut RegistryImage,
    scope: &RegistryScope,
    state: &str,
    targets: &[Target],
    executable: &[u16],
) -> (result: Result<(), IoError>)
    requires
        old(registry).consistent(),
    ensures
        ends_as(
            result,
            final(registry)@,
            backup_outcome(old(registry)@, scope@, state@, takeovers(targets@), executable@),
        ),
        final(registry).consistent(),
        final(registry).origin() == old(registry).origin(),
        final(registry).grew(old(registry)),
{
    proof {
        image::lemma_grew_by_nothing(registry);
    }
    let ghost start = registry@;
    let ghost all = takeovers(targets@);
    let ghost step = backup_steps(scope@, state@);
    let n: usize = targets.len();
    let mut i: usize = 0;
    while i < n
        invariant
            n == targets@.len(),
            i <= n,
            start == old(registry)@,
            all == takeovers(targets@),
            step == backup_steps(scope@, state@),
            registry.consistent(),
            registry.origin() == old(registry).origin(),
            registry.grew(old(registry)),
            fold(start, all, i as int, step) == done(registry@),
        decreases n - i,
    {
        let ghost before = registry@;
        let ghost earlier = *registry;
        assert(all[i as int] == targets@[i as int]@);
        let result = backup_target_values(registry, scope, state, targets[i]);
        assert(fold(start, all, i + 1, step) == backup_step(before, scope@, state@, all[i as int]));
        let ghost later = *registry;
        proof {
            image::lemma_grew_again(old(registry), &earlier, &later);
        }
        match result {
            Ok(_) => {},
            Err(error) => {
                proof {
                    lemma_fold_stops(start, all, i + 1, n as int, step);
                }
                registry.delete_tree(state);
                proof {
                    image::lemma_grew_again(old(registry), &later, registry);
                }
                return Err(error);
            },
        }
        i += 1;
    }
    let ghost backed = *registry;
    write_string(registry, state, "BoundExecutable", executable);
    let ghost bound = *registry;
    write_dword(registry, state, "BackupComplete", 1);
    proof {
        image::lemma_grew_again(old(registry), &backed, &bound);
        image::lemma_grew_again(old(registry), &bound, registry);
    }
    Ok(())
}

/// Registers the program. On an error the image shows what is left then.
pub fn enable(
    registry: &mut RegistryImage,
    scope: &RegistryScope,
    integration: &str,
    targets: &[Target],
    executable: &[u16],
) -> (result: Result<EnablePlan, IoError>)
    requires
        old(registry).consistent(),
    ensures
        ends_as(
            result,
            final(registry)@,
            enable_outcome(
                old(registry)@,
                scope@,
                integration@,
                takeovers(targets@),
                executable@,
            ),
        ),
        final(registry).consistent(),
        final(registry).origin() == old(registry).origin(),
        final(registry).grew(old(registry)),
        result matches Ok(plan) ==> is_plan(
            plan,
            old(registry)@,
            *final(registry),
            scope@,
            integration@,
            takeovers(targets@),
            executable@,
        ),
{
    proof {
        image::lemma_grew_by_nothing(registry);
    }
    let state = scope.state_key(integration);
    let had_backup = match read_dword(registry, state.as_str(), "BackupComplete") {
        Ok(Some(n)) => n == 1,
        Ok(None) => false,
        Err(error) => {
            return Err(error);
        },
    };
    if !had_backup {
        match make_backups(registry, scope, state.as_str(), targets, executable) {
            Ok(_) => {},
            Err(error) => {
                return Err(error);
            },
        }
    }
    let backup_operations: usize = registry.logged_count();
    let ghost kept = *registry;
    proof {
        image::lemma_consistent(&kept);
        assert(registry.logged().subrange(0, registry.logged().len() as int)
            =~= registry.logged());
        assert(old(registry).logged().subrange(0, old(registry).logged().len() as int)
            =~= old(registry).logged());
    }
    let ghost all = takeovers(targets@);
    let ghost step = apply_steps(scope@, executable@);
    write_string(registry, state.as_str(), "BoundExecutable", executable);
    let ghost start = registry@;
    let n: usize = targets.len();
    let mut i: usize = 0;
    while i < n
        invariant
            n == targets@.len(),
            i <= n,
            all == takeovers(targets@),
            step == apply_steps(scope@, executable@),
            registry.consistent(),
            registry.origin() == old(registry).origin(),
            registry.grew(&kept),
            fold(start, all, i as int, step) == done(registry@),
        decreases n - i,
    {
        let ghost before = registry@;
        let ghost earlier = *registry;
        assert(all[i as int] == targets@[i as int]@);
        apply_target(registry, scope, targets[i], executable);
        proof {
            image::lemma_grew_again(&kept, &earlier, registry);
        }
        assert(fold(start, all, i + 1, step) == apply_step(
            before,
            scope@,
            executable@,
            all[i as int],
        ));
        i += 1;
    }
    let ghost taken = *registry;
    write_dword(registry, state.as_str(), "Active", 1);
    proof {
        image::lemma_grew_again(&kept, &taken, registry);
        image::lemma_grew_again(old(registry), &kept, registry);
    }
    Ok(EnablePlan { had_backup, backup_operations })
}

// ---- restoring ----

/// Puts a value back as it was kept.
pub open spec fn restored_value(
    registry: Registry,
    state: Seq<char>,
    prefix: Seq<char>,
    field: Seq<char>,
    at: Slot,
) -> Outcome {
    match dword_in(registry, present_slot(state, prefix, field)) {
        Err(message) => Outcome { registry, error: Some(message) },
        Ok(Some(0)) => done(registry.remove(at)),
        Ok(Some(1)) => match dword_in(registry, type_slot(state, prefix, field)) {
            Err(message) => Outcome { registry, error: Some(message) },
            Ok(None) => Outcome { registry, error: Some("missing registry backup type"@) },
            Ok(Some(value_type)) => match registry.get(data_slot(state, prefix, field)) {
                None => Outcome { registry, error: Some("missing registry backup data"@) },
                Some(value) => done(
                    registry.insert(at, Value { value_type, data: value.data }),
                ),
            },
        },
        Ok(_) => Outcome { registry, error: Some("missing registry backup marker"@) },
    }
}

pub fn restore_value(
    registry: &mut RegistryImage,
    state: &str,
    prefix: &str,
    field: &str,
    key: &str,
    name: &str,
) -> (result: Result<(), IoError>)
    requires
        old(registry).consistent(),
    ensures
        ends_as(
            result,
            final(registry)@,
            restored_value(
                old(registry)@,
                state@,
                prefix@,
                field@,
                image::slot(key@, name@),
            ),
        ),
        final(registry).consistent(),
        final(registry).origin() == old(registry).origin(),
{
    let present = backup_name_text(prefix, field, "Present");
    let marker = match read_dword(registry, state, present.as_str()) {
        Ok(Some(n)) => n,
        Ok(None) => {
            return Err(IoError::new(ErrorKind::InvalidData, "missing registry backup marker"));
        },
        Err(error) => {
            return Err(error);
        },
    };
    if marker == 0 {
        registry.delete_value(key, name);
        return Ok(());
    }
    if marker != 1 {
        return Err(IoError::new(ErrorKind::InvalidData, "missing registry backup marker"));
    }
    let kind = backup_name_text(prefix, field, "Type");
    let value_type = match read_dword(registry, state, kind.as_str()) {
        Ok(Some(n)) => n,
        Ok(None) => {
            return Err(IoError::new(ErrorKind::InvalidData, "missing registry backup type"));
        },
        Err(error) => {
            return Err(error);
        },
    };
    let data = backup_name_text(prefix, field, "Data");
    match registry.read_value(state, data.as_str()) {
        Some(value) => {
            registry.write_raw(key, name, value_type, value.data.as_slice());
            Ok(())
        },
        None => Err(IoError::new(ErrorKind::InvalidData, "missing registry backup data")),
    }
}

/// Puts a value back as it was kept, or deletes it where that cannot be told.
pub open spec fn restored_or_deleted(
    registry: Registry,
    state: Seq<char>,
    prefix: Seq<char>,
    field: Seq<char>,
    at: Slot,
) -> Registry {
    let outcome = restored_value(registry, state, prefix, field, at);
    if outcome.error is Some {
        registry.remove(at)
    } else {
        outcome.registry
    }
}

fn restore_or_delete(
    registry: &mut RegistryImage,
    state: &str,
    prefix: &str,
    field: &str,
    key: &str,
    name: &str,
)
    requires
        old(registry).consistent(),
    ensures
        final(registry)@ == restored_or_deleted(
            old(registry)@,
            state@,
            prefix@,
            field@,
            image::slot(key@, name@),
        ),
        final(registry).consistent(),
        final(registry).origin() == old(registry).origin(),
{
    match restore_value(registry, state, prefix, field, key, name) {
        Ok(_) => {},
        Err(_) => {
            registry.delete_value(key, name);
        },
    }
}

/// A target is given back when it is still ours, under the bound program or another copy.
pub open spec fn gives_back(
    registry: Registry,
    scope: Scope,
    bound: Option<Seq<u16>>,
    target: Takeover,
) -> Result<bool, Seq<char>> {
    if bound is Some && is_owned(registry, scope, target, bound->0) {
        Ok(true)
    } else {
        match text_in(registry, command_slot(scope, target)) {
            Err(message) => Err(message),
            Ok(command) => Ok(is_own_command(command)),
        }
    }
}

pub open spec fn revert_step(
    registry: Registry,
    scope: Scope,
    state: Seq<char>,
    bound: Option<Seq<u16>>,
    target: Takeover,
) -> Outcome {
    match gives_back(registry, scope, bound, target) {
        Err(message) => Outcome { registry, error: Some(message) },
        Ok(false) => done(registry),
        Ok(true) => done(
            restored_or_deleted(
                restored_or_deleted(
                    registry,
                    state,
                    target.prefix,
                    "Default"@,
                    command_slot(scope, target),
                ),
                state,
                target.prefix,
                "DelegateExecute"@,
                delegate_slot(scope, target),
            ),
        ),
    }
}

pub open spec fn revert_steps(
    scope: Scope,
    state: Seq<char>,
    bound: Option<Seq<u16>>,
) -> spec_fn(Registry, Takeover) -> Outcome {
    |registry: Registry, target: Takeover| revert_step(registry, scope, state, bound, target)
}

fn revert_target(
    registry: &mut RegistryImage,
    scope: &RegistryScope,
    state: &str,
    bound: &Option<Vec<u16>>,
    target: Target,
) -> (result: Result<(), IoError>)
    requires
        old(registry).consistent(),
    ensures
        ends_as(
            result,
            final(registry)@,
            revert_step(old(registry)@, scope@, state@, units_view(*bound), target@),
        ),
        final(registry).consistent(),
        final(registry).origin() == old(registry).origin(),
{
    let key = scope.class_key(target.key);
    let owned = match bound {
        Some(executable) => target_is_owned(registry, scope, target, executable.as_slice()),
        None => false,
    };
    if !owned {
        match read_string(registry, key.as_str(), "") {
            Ok(command) => {
                if !command_invokes_asterfiles(&command) {
                    return Ok(());
                }
            },
            Err(error) => {
                return Err(error);
            },
        }
    }
    restore_or_delete(registry, state, target.backup_prefix, "Default", key.as_str(), "");
    restore_or_delete(
        registry,
        state,
        target.backup_prefix,
        "DelegateExecute",
        key.as_str(),
        "DelegateExecute",
    );
    Ok(())
}

/// Deletes a command of our own that nothing is known of.
pub open spec fn clear_step(registry: Registry, scope: Scope, target: Takeover) -> Outcome {
    match text_in(registry, command_slot(scope, target)) {
        Err(message) => Outcome { registry, error: Some(message) },
        Ok(command) => if is_own_command(command) {
            done(
                registry.remove(command_slot(scope, target)).remove(delegate_slot(scope, target)),
            )
        } else {
            done(registry)
        },
    }
}

pub open spec fn clear_steps(scope: Scope) -> spec_fn(Registry, Takeover) -> Outcome {
    |registry: Registry, target: Takeover| clear_step(registry, scope, target)
}

fn clear_leftover(registry: &mut RegistryImage, scope: &RegistryScope, target: Target) -> (result:
    Result<(), IoError>)
    requires
        old(registry).consistent(),
    ensures
        ends_as(result, final(registry)@, clear_step(old(registry)@, scope@, target@)),
        final(registry).consistent(),
        final(registry).origin() == old(registry).origin(),
{
    let key = scope.class_key(target.key);
    match read_string(registry, key.as_str(), "") {
        Ok(command) => {
            if command_invokes_asterfiles(&command) {
                registry.delete_value(key.as_str(), "");
                registry.delete_value(key.as_str(), "DelegateExecute");
            }
            Ok(())
        },
        Err(error) => Err(error),
    }
}

/// Whether there is a registration, or at least its backups.
pub open spec fn has_state(registry: Registry, state: Seq<char>) -> Result<bool, Seq<char>> {
    match dword_in(registry, active_slot(state)) {
        Err(message) => Err(message),
        Ok(Some(1)) => Ok(true),
        Ok(_) => match dword_in(registry, complete_slot(state)) {
            Err(message) => Err(message),
            Ok(n) => Ok(n == Some(1u32)),
        },
    }
}

fn read_state(registry: &RegistryImage, state: &str) -> (result: Result<bool, IoError>)
    ensures
        ({
            let found = has_state(registry@, state@);
            reads(result, error_of(found)) && (result matches Ok(yes) ==> found == Ok::<
                bool,
                Seq<char>,
            >(yes))
        }),
{
    match read_dword(registry, state, "Active") {
        Ok(Some(n)) => {
            if n == 1 {
                return Ok(true);
            }
        },
        Ok(None) => {},
        Err(error) => {
            return Err(error);
        },
    }
    match read_dword(registry, state, "BackupComplete") {
        Ok(Some(n)) => Ok(n == 1),
        Ok(None) => Ok(false),
        Err(error) => Err(error),
    }
}

/// The registry once the targets of a registration are given back and its state is deleted.
pub open spec fn reverted(
    registry: Registry,
    scope: Scope,
    state: Seq<char>,
    targets: Seq<Takeover>,
    bound: Option<Seq<u16>>,
) -> Outcome {
    let outcome = fold(
        registry,
        targets,
        targets.len() as int,
        revert_steps(scope, state, bound),
    );
    if outcome.error is Some {
        outcome
    } else {
        done(image::without_tree(outcome.registry, state))
    }
}

/// Giving everything back: what a registration replaced, then what is left of our own commands.
pub open spec fn restore_outcome(
    registry: Registry,
    scope: Scope,
    integration: Seq<char>,
    targets: Seq<Takeover>,
) -> Outcome {
    let state = state_key_of(scope, integration);
    match (has_state(registry, state), text_in(registry, bound_slot(state))) {
        (Err(message), _) => Outcome { registry, error: Some(message) },
        (Ok(_), Err(message)) => Outcome { registry, error: Some(message) },
        (Ok(registered), Ok(bound)) => {
            let given_back = if registered {
                reverted(registry, scope, state, targets, bound)
            } else {
                done(registry)
            };
            if given_back.error is Some {
                given_back
            } else {
                fold(given_back.registry, targets, targets.len() as int, clear_steps(scope))
            }
        },
    }
}

fn revert_all(
    registry: &mut RegistryImage,
    scope: &RegistryScope,
    state: &str,
    targets: &[Target],
    bound: &Option<Vec<u16>>,
) -> (result: Result<(), IoError>)
    requires
        old(registry).consistent(),
    ensures
        ends_as(
            result,
            final(registry)@,
            reverted(old(registry)@, scope@, state@, takeovers(targets@), units_view(*bound)),
        ),
        final(registry).consistent(),
        final(registry).origin() == old(registry).origin(),
{
    let ghost start = registry@;
    let ghost all = takeovers(targets@);
    let ghost step = revert_steps(scope@, state@, units_view(*bound));
    let n: usize = targets.len();
    let mut i: usize = 0;
    while i < n
        invariant
            n == targets@.len(),
            i <= n,
            start == old(registry)@,
            all == takeovers(targets@),
            step == revert_steps(scope@, state@, units_view(*bound)),
            registry.consistent(),
            registry.origin() == old(registry).origin(),
            fold(start, all, i as int, step) == done(registry@),
        decreases n - i,
    {
        let ghost before = registry@;
        assert(all[i as int] == targets@[i as int]@);
        let result = revert_target(registry, scope, state, bound, targets[i]);
        assert(fold(start, all, i + 1, step) == revert_step(
            before,
            scope@,
            state@,
            units_view(*bound),
            all[i as int],
        ));
        match result {
            Ok(_) => {},
            Err(error) => {
                proof {
                    lemma_fold_stops(start, all, i + 1, n as int, step);
                }
                return Err(error);
            },
        }
        i += 1;
    }
    registry.delete_tree(state);
    Ok(())
}

fn clear_leftovers(registry: &mut RegistryImage, scope: &RegistryScope, targets: &[Target]) -> (
    result: Result<(), IoError>)
    requires
        old(registry).consistent(),
    ensures
        ends_as(
            result,
            final(registry)@,
            fold(
                old(registry)@,
                takeovers(targets@),
                targets@.len() as int,
                clear_steps(scope@),
            ),
        ),
        final(registry).consistent(),
        final(registry).origin() == old(registry).origin(),
{
    let ghost start = registry@;
    let ghost all = takeovers(targets@);
    let ghost step = clear_steps(scope@);
    let n: usize = targets.len();
    let mut i: usize = 0;
    while i < n
        invariant
            n == targets@.len(),
            i <= n,
            start == old(registry)@,
            all == takeovers(targets@),
            step == clear_steps(scope@),
            registry.consistent(),
            registry.origin() == old(registry).origin(),
            fold(start, all, i as int, step) == done(registry@),
        decreases n - i,
    {
        let ghost before = registry@;
        assert(all[i as int] == targets@[i as int]@);
        let result = clear_leftover(registry, scope, targets[i]);
        assert(fold(start, all, i + 1, step) == clear_step(before, scope@, all[i as int]));
        match result {
            Ok(_) => {},
            Err(error) => {
                proof {
                    lemma_fold_stops(start, all, i + 1, n as int, step);
                }
                return Err(error);
            },
        }
        i += 1;
    }
    Ok(())
}

/// Gives everything back. On an error the image shows what is left then.
pub fn restore(
    registry: &mut RegistryImage,
    scope: &RegistryScope,
    integration: &str,
    targets: &[Target],
) -> (result: Result<(), IoError>)
    requires
        old(registry).consistent(),
    ensures
        ends_as(
            result,
            final(registry)@,
            restore_outcome(old(registry)@, scope@, integration@, takeovers(targets@)),
        ),
        final(registry).consistent(),
        final(registry).origin() == old(registry).origin(),
{
    let state = scope.state_key(integration);
    let registered = match read_state(registry, state.as_str()) {
        Ok(registered) => registered,
        Err(error) => {
            return Err(error);
        },
    };
    let bound = match read_string(registry, state.as_str(), "BoundExecutable") {
        Ok(bound) => bound,
        Err(error) => {
            return Err(error);
        },
    };
    if registered {
        match revert_all(registry, scope, state.as_str(), targets, &bound) {
            Ok(_) => {},
            Err(error) => {
                return Err(error);
            },
        }
    }
    clear_leftovers(registry, scope, targets)
}

/// The operation to try where one of a restore cannot be carried out: a value that cannot be
/// written back is deleted.
pub fn restore_fallback(operation: &RegistryOperation) -> (fallback: Option<RegistryOperation>)
    ensures
        match operation@ {
            image::Change::Write(at, _) => fallback matches Some(other) && other@
                == image::Change::DeleteValue(at),
            _ => fallback is None,
        },
{
    match operation {
        RegistryOperation::Write { key, name, .. } => Some(
            RegistryOperation::DeleteValue {
                key: text_of(key.as_str()),
                name: text_of(name.as_str()),
            },
        ),
        _ => None,
    }
}

pub open spec fn restore_backup_step(
    registry: Registry,
    scope: Scope,
    state: Seq<char>,
    target: Takeover,
) -> Outcome {
    let first = restored_value(
        registry,
        state,
        target.prefix,
        "Default"@,
        command_slot(scope, target),
    );
    if first.error is Some {
        first
    } else {
        restored_value(
            first.registry,
            state,
            target.prefix,
            "DelegateExecute"@,
            delegate_slot(scope, target),
        )
    }
}

pub open spec fn restore_backup_steps(scope: Scope, state: Seq<char>) -> spec_fn(
    Registry,
    Takeover,
) -> Outcome {
    |registry: Registry, target: Takeover| restore_backup_step(registry, scope, state, target)
}

fn restore_backup(
    registry: &mut RegistryImage,
    scope: &RegistryScope,
    state: &str,
    target: Target,
) -> (result: Result<(), IoError>)
    requires
        old(registry).consistent(),
    ensures
        ends_as(
            result,
            final(registry)@,
            restore_backup_step(old(registry)@, scope@, state@, target@),
        ),
        final(registry).consistent(),
        final(registry).origin() == old(registry).origin(),
{
    let key = scope.class_key(target.key);
    match restore_value(registry, state, target.backup_prefix, "Default", key.as_str(), "") {
        Ok(_) => {},
        Err(error) => {
            return Err(error);
        },
    }
    restore_value(
        registry,
        state,
        target.backup_prefix,
        "DelegateExecute",
        key.as_str(),
        "DelegateExecute",
    )
}

/// Undoes a first registration that failed half way: the backups are put back as far as they can
/// be, and the state is deleted.
pub fn roll_back(
    registry: &mut RegistryImage,
    scope: &RegistryScope,
    integration: &str,
    targets: &[Target],
)
    requires
        old(registry).consistent(),
    ensures
        ({
            let state = state_key_of(scope@, integration@);
            final(registry)@ == image::without_tree(
                fold(
                    old(registry)@,
                    takeovers(targets@),
                    targets@.len() as int,
                    restore_backup_steps(scope@, state),
                ).registry,
                state,
            )
        }),
        final(registry).consistent(),
        final(registry).origin() == old(registry).origin(),
{
    let state = scope.state_key(integration);
    let ghost start = registry@;
    let ghost all = takeovers(targets@);
    let ghost step = restore_backup_steps(scope@, state@);
    let n: usize = targets.len();
    let mut i: usize = 0;
    while i < n
        invariant
            n == targets@.len(),
            i <= n,
            start == old(registry)@,
            all == takeovers(targets@),
            step == restore_backup_steps(scope@, state@),
            state@ == state_key_of(scope@, integration@),
            registry.consistent(),
            registry.origin() == old(registry).origin(),
            fold(start, all, i as int, step) == done(registry@),
        decreases n - i,
    {
        let ghost before = registry@;
        assert(all[i as int] == targets@[i as int]@);
        let result = restore_backup(registry, scope, state.as_str(), targets[i]);
        assert(fold(start, all, i + 1, step) == restore_backup_step(
            before,
            scope@,
            state@,
            all[i as int],
        ));
        match result {
            Ok(_) => {},
            Err(_) => {
                proof {
                    lemma_fold_stops(start, all, i + 1, n as int, step);
                }
                registry.delete_tree(state.as_str());
                return ;
            },
        }
        i += 1;
    }
    registry.delete_tree(state.as_str());
}

// ---- the status ----

/// Whether one of the first targets has a command of our own, unless one cannot be read before.
pub open spec fn leftover(registry: Registry, scope: Scope, targets: Seq<Takeover>, n: int) -> Result<
    bool,
    Seq<char>,
>
    decreases n,
{
    if n <= 0 {
        Ok(false)
    } else {
        match leftover(registry, scope, targets, n - 1) {
            Err(message) => Err(message),
            Ok(true) => Ok(true),
            Ok(false) => match text_in(registry, command_slot(scope, targets[n - 1])) {
                Err(message) => Err(message),
                Ok(command) => Ok(is_own_command(command)),
            },
        }
    }
}

proof fn lemma_leftover_stops(
    registry: Registry,
    scope: Scope,
    targets: Seq<Takeover>,
    i: int,
    n: int,
)
    requires
        0 <= i <= n,
        leftover(registry, scope, targets, i) != Ok::<bool, Seq<char>>(false),
    ensures
        leftover(registry, scope, targets, n) == leftover(registry, scope, targets, i),
    decreases n,
{
    if i < n {
        lemma_leftover_stops(registry, scope, targets, i, n - 1);
    }
}

pub fn leftover_asterfiles_command(
    registry: &RegistryImage,
    scope: &RegistryScope,
    targets: &[Target],
) -> (result: Result<bool, IoError>)
    ensures
        ({
            let found = leftover(registry@, scope@, takeovers(targets@), targets@.len() as int);
            reads(result, error_of(found)) && (result matches Ok(yes) ==> found == Ok::<
                bool,
                Seq<char>,
            >(yes))
        }),
{
    let ghost all = takeovers(targets@);
    let n: usize = targets.len();
    let mut i: usize = 0;
    while i < n
        invariant
            n == targets@.len(),
            i <= n,
            all == takeovers(targets@),
            leftover(registry@, scope@, all, i as int) == Ok::<bool, Seq<char>>(false),
        decreases n - i,
    {
        assert(all[i as int] == targets@[i as int]@);
        let key = scope.class_key(targets[i].key);
        match read_string(registry, key.as_str(), "") {
            Ok(command) => {
                if command_invokes_asterfiles(&command) {
                    proof {
                        lemma_leftover_stops(registry@, scope@, all, i + 1, n as int);
                    }
                    return Ok(true);
                }
            },
            Err(error) => {
                proof {
                    lemma_leftover_stops(registry@, scope@, all, i + 1, n as int);
                }
                return Err(error);
            },
        }
        i += 1;
    }
    Ok(false)
}

pub open spec fn all_owned(
    registry: Registry,
    scope: Scope,
    targets: Seq<Takeover>,
    executable: Seq<u16>,
) -> bool {
    forall|i: int|
        0 <= i < targets.len() ==> is_owned(registry, scope, #[trigger] targets[i], executable)
}

/// The status of a registration, for the program that runs, and given whether the bound program
/// exists.
pub open spec fn status_of(
    registry: Registry,
    scope: Scope,
    integration: Seq<char>,
    targets: Seq<Takeover>,
    current: Seq<u16>,
    bound_exists: bool,
) -> Result<Status, Seq<char>> {
    let state = state_key_of(scope, integration);
    match has_state(registry, state) {
        Err(message) => Err(message),
        Ok(false) => match leftover(registry, scope, targets, targets.len() as int) {
            Err(message) => Err(message),
            Ok(true) => Ok(
                Status::NeedsRepair(current, ShellIntegrationRepairReason::RegistryChanged),
            ),
            Ok(false) => Ok(Status::Disabled),
        },
        Ok(true) => match text_in(registry, bound_slot(state)) {
            Err(message) => Err(message),
            Ok(None) => Ok(
                Status::NeedsRepair(Seq::empty(), ShellIntegrationRepairReason::RegistryChanged),
            ),
            Ok(Some(bound)) => if !all_owned(registry, scope, targets, bound) {
                Ok(Status::NeedsRepair(bound, ShellIntegrationRepairReason::RegistryChanged))
            } else if !winpath::same_path(bound, current) || !bound_exists {
                Ok(
                    Status::NeedsRepair(
                        bound,
                        ShellIntegrationRepairReason::ExecutableMovedOrMissing,
                    ),
                )
            } else {
                Ok(Status::Enabled(current))
            },
        },
    }
}

pub fn status(
    registry: &RegistryImage,
    scope: &RegistryScope,
    integration: &str,
    targets: &[Target],
    current: &[u16],
    bound_exists: bool,
) -> (result: Result<ShellIntegrationStatus, IoError>)
    ensures
        ({
            let found = status_of(
                registry@,
                scope@,
                integration@,
                takeovers(targets@),
                current@,
                bound_exists,
            );
            reads(result, error_of(found)) && (result matches Ok(status) ==> found == Ok::<
                Status,
                Seq<char>,
            >(status@))
        }),
{
    let state = scope.state_key(integration);
    let registered = match read_state(registry, state.as_str()) {
        Ok(registered) => registered,
        Err(error) => {
            return Err(error);
        },
    };
    if !registered {
        return match leftover_asterfiles_command(registry, scope, targets) {
            Ok(true) => Ok(
                ShellIntegrationStatus::NeedsRepair {
                    bound_executable: units_copy_all(current),
                    reason: ShellIntegrationRepairReason::RegistryChanged,
                },
            ),
            Ok(false) => Ok(ShellIntegrationStatus::Disabled),
            Err(error) => Err(error),
        };
    }
    let bound = match read_string(registry, state.as_str(), "BoundExecutable") {
        Ok(Some(bound)) => bound,
        Ok(None) => {
            let nothing: Vec<u16> = Vec::new();
            assert(nothing@ =~= Seq::<u16>::empty());
            return Ok(
                ShellIntegrationStatus::NeedsRepair {
                    bound_executable: nothing,
                    reason: ShellIntegrationRepairReason::RegistryChanged,
                },
            );
        },
        Err(error) => {
            return Err(error);
        },
    };
    let ghost all = takeovers(targets@);
    let n: usize = targets.len();
    let mut i: usize = 0;
    while i < n
        invariant
            n == targets@.len(),
            i <= n,
            all == takeovers(targets@),
            state@ == state_key_of(scope@, integration@),
            has_state(registry@, state@) == Ok::<bool, Seq<char>>(true),
            text_in(registry@, bound_slot(state@)) == Ok::<Option<Seq<u16>>, Seq<char>>(
                Some(bound@),
            ),
            forall|j: int|
                0 <= j < i ==> is_owned(registry@, scope@, #[trigger] all[j], bound@),
        decreases n - i,
    {
        assert(all[i as int] == targets@[i as int]@);
        if !target_is_owned(registry, scope, targets[i], bound.as_slice()) {
            assert(!all_owned(registry@, scope@, all, bound@));
            return Ok(
                ShellIntegrationStatus::NeedsRepair {
                    bound_executable: bound,
                    reason: ShellIntegrationRepairReason::RegistryChanged,
                },
            );
        }
        i += 1;
    }
    assert(all_owned(registry@, scope@, all, bound@));
    if !path_eq(bound.as_slice(), current) || !bound_exists {
        return Ok(
            ShellIntegrationStatus::NeedsRepair {
                bound_executable: bound,
                reason: ShellIntegrationRepairReason::ExecutableMovedOrMissing,
            },
        );
    }
    Ok(ShellIntegrationStatus::Enabled { executable: units_copy_all(current) })
}

/// The program to which a registration is bound, as far as it can be read.
pub fn bound_executable(registry: &RegistryImage, scope: &RegistryScope, integration: &str) -> (
    bound: Option<Vec<u16>>)
    ensures
        units_view(bound) == match text_in(
            registry@,
            bound_slot(state_key_of(scope@, integration@)),
        ) {
            Ok(found) => found,
            Err(_) => None,
        },
{
    let state = scope.state_key(integration);
    match read_string(registry, state.as_str(), "BoundExecutable") {
        Ok(bound) => bound,
        Err(_) => None,
    }
}

// ---- the two registrations ----

pub fn folder_open_status(registry: &RegistryImage, current: &[u16], bound_exists: bool) -> (result:
    Result<ShellIntegrationStatus, IoError>)
    ensures
        ({
            let found = status_of(
                registry@,
                production_scope(),
                FOLDER_STATE@,
                folder_takeovers(),
                current@,
                bound_exists,
            );
            reads(result, error_of(found)) && (result matches Ok(status) ==> found == Ok::<
                Status,
                Seq<char>,
            >(status@))
        }),
{
    let targets = folder_targets();
    status(
        registry,
        &RegistryScope::production(),
        FOLDER_STATE,
        targets.as_slice(),
        current,
        bound_exists,
    )
}

pub fn enable_folder_open(registry: &mut RegistryImage, executable: &[u16]) -> (result: Result<
    EnablePlan,
    IoError,
>)
    requires
        old(registry).consistent(),
    ensures
        ends_as(
            result,
            final(registry)@,
            enable_outcome(
                old(registry)@,
                production_scope(),
                FOLDER_STATE@,
                folder_takeovers(),
                executable@,
            ),
        ),
        result matches Ok(plan) ==> is_plan(
            plan,
            old(registry)@,
            *final(registry),
            production_scope(),
            FOLDER_STATE@,
            folder_takeovers(),
            executable@,
        ),
        final(registry).consistent(),
        final(registry).origin() == old(registry).origin(),
{
    let targets = folder_targets();
    enable(registry, &RegistryScope::production(), FOLDER_STATE, targets.as_slice(), executable)
}

/// A repair is a further registration.
pub fn repair_folder_open(registry: &mut RegistryImage, executable: &[u16]) -> (result: Result<
    EnablePlan,
    IoError,
>)
    requires
        old(registry).consistent(),
    ensures
        ends_as(
            result,
            final(registry)@,
            enable_outcome(
                old(registry)@,
                production_scope(),
                FOLDER_STATE@,
                folder_takeovers(),
                executable@,
            ),
        ),
        result matches Ok(plan) ==> is_plan(
            plan,
            old(registry)@,
            *final(registry),
            production_scope(),
            FOLDER_STATE@,
            folder_takeovers(),
            executable@,
        ),
        final(registry).consistent(),
        final(registry).origin() == old(registry).origin(),
{
    enable_folder_open(registry, executable)
}

pub fn restore_folder_open(registry: &mut RegistryImage) -> (result: Result<(), IoError>)
    requires
        old(registry).consistent(),
    ensures
        ends_as(
            result,
            final(registry)@,
            restore_outcome(
                old(registry)@,
                production_scope(),
                FOLDER_STATE@,
                folder_takeovers(),
            ),
        ),
        final(registry).consistent(),
        final(registry).origin() == old(registry).origin(),
{
    let targets = folder_targets();
    restore(registry, &RegistryScope::production(), FOLDER_STATE, targets.as_slice())
}

pub fn win_e_status(registry: &RegistryImage, current: &[u16], bound_exists: bool) -> (result:
    Result<ShellIntegrationStatus, IoError>)
    ensures
        ({
            let found = status_of(
                registry@,
                production_scope(),
                WIN_E_STATE@,
                win_e_takeovers(),
                current@,
                bound_exists,
            );
            reads(result, error_of(found)) && (result matches Ok(status) ==> found == Ok::<
                Status,
                Seq<char>,
            >(status@))
        }),
{
    let targets = win_e_targets();
    status(
        registry,
        &RegistryScope::production(),
        WIN_E_STATE,
        targets.as_slice(),
        current,
        bound_exists,
    )
}

pub fn enable_win_e(registry: &mut RegistryImage, executable: &[u16]) -> (result: Result<
    EnablePlan,
    IoError,
>)
    requires
        old(registry).consistent(),
    ensures
        ends_as(
            result,
            final(registry)@,
            enable_outcome(
                old(registry)@,
                production_scope(),
                WIN_E_STATE@,
                win_e_takeovers(),
                executable@,
            ),
        ),
        result matches Ok(plan) ==> is_plan(
            plan,
            old(registry)@,
            *final(registry),
            production_scope(),
            WIN_E_STATE@,
            win_e_takeovers(),
            executable@,
        ),
        final(registry).consistent(),
        final(registry).origin() == old(registry).origin(),
{
    let targets = win_e_targets();
    enable(registry, &RegistryScope::production(), WIN_E_STATE, targets.as_slice(), executable)
}

/// A repair is a further registration.
pub fn repair_win_e(registry: &mut RegistryImage, executable: &[u16]) -> (result: Result<
    EnablePlan,
    IoError,
>)
    requires
        old(registry).consistent(),
    ensures
        ends_as(
            result,
            final(registry)@,
            enable_outcome(
                old(registry)@,
                production_scope(),
                WIN_E_STATE@,
                win_e_takeovers(),
                executable@,
            ),
        ),
        result matches Ok(plan) ==> is_plan(
            plan,
            old(registry)@,
            *final(registry),
            production_scope(),
            WIN_E_STATE@,
            win_e_takeovers(),
            executable@,
        ),
        final(registry).consistent(),
        final(registry).origin() == old(registry).origin(),
{
    enable_win_e(registry, executable)
}

pub fn restore_win_e(registry: &mut RegistryImage) -> (result: Result<(), IoError>)
    requires
        old(registry).consistent(),
    ensures
        ends_as(
            result,
            final(registry)@,
            restore_outcome(
                old(registry)@,
                production_scope(),
                WIN_E_STATE@,
                win_e_takeovers(),
            ),
        ),
        final(registry).consistent(),
        final(registry).origin() == old(registry).origin(),
{
    let targets = win_e_targets();
    restore(registry, &RegistryScope::production(), WIN_E_STATE, targets.as_slice())
}

} // verus!
