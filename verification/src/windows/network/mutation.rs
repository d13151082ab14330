//! Folders that the helper process creates and files that it renames.
use vstd::prelude::*;

use crate::bytes;
use crate::bytes::push_u32;
use crate::errors;
use crate::errors::{ErrorKind, IoError};
use crate::windows::network::codec;
use crate::windows::network::codec::{
    read_byte, read_optional_units, read_u32, read_units_at, write_optional_units, write_units,
    Fault,
};
use crate::windows::network::helper;
use crate::winpath;
use crate::winpath::{file_name_of, parent_of, path_eq, units_copy_all};

verus! {

#[derive(Debug, Clone, Copy, PartialEq, Eq, Structural)]
pub enum IsolatedFileMutationKind {
    CreateFolder,
    Rename,
}

#[derive(Debug, Clone, PartialEq, Eq)]
pub struct IsolatedFileMutationResult {
    pub completed_path: Option<Vec<u16>>,
    pub affected_directories: Vec<Vec<u16>>,
}

// ---- the request ----

pub struct MutationData {
    pub kind: IsolatedFileMutationKind,
    pub source: Option<Seq<u16>>,
    pub destination: Option<Seq<u16>>,
}

#[derive(Debug, Clone, PartialEq, Eq)]
pub struct MutationInput {
    pub kind: IsolatedFileMutationKind,
    pub source: Option<Vec<u16>>,
    pub destination: Option<Vec<u16>>,
}

impl MutationInput {
    pub open spec fn data(self) -> MutationData {
        MutationData {
            kind: self.kind,
            source: codec::units_view(self.source),
            destination: codec::units_view(self.destination),
        }
    }
}

pub open spec fn mutation_byte(kind: IsolatedFileMutationKind) -> u8 {
    match kind {
        IsolatedFileMutationKind::CreateFolder => 0,
        IsolatedFileMutationKind::Rename => 1,
    }
}

pub open spec fn mutation_out(input: MutationData) -> Seq<u8> {
    seq![mutation_byte(input.kind)] + codec::optional_units_out(input.source)
        + codec::optional_units_out(input.destination)
}

pub open spec fn mutation_sendable(input: MutationData) -> bool {
    codec::optional_sendable(input.source) && codec::optional_sendable(input.destination)
}

pub open spec fn mutation_kind_at(b: Seq<u8>, at: int) -> Result<
    (IsolatedFileMutationKind, int),
    Fault,
> {
    match codec::byte_at(b, at) {
        Err(fault) => Err(fault),
        Ok((byte, at)) => if byte == 0 {
            Ok((IsolatedFileMutationKind::CreateFolder, at))
        } else if byte == 1 {
            Ok((IsolatedFileMutationKind::Rename, at))
        } else {
            Err(codec::invalid("invalid file mutation kind"@))
        },
    }
}

pub open spec fn mutation_at(b: Seq<u8>, at: int) -> Result<(MutationData, int), Fault> {
    match mutation_kind_at(b, at) {
        Err(fault) => Err(fault),
        Ok((kind, at)) => match codec::optional_units_at(b, at) {
            Err(fault) => Err(fault),
            Ok((source, at)) => match codec::optional_units_at(b, at) {
                Err(fault) => Err(fault),
                Ok((destination, at)) => Ok((MutationData { kind, source, destination }, at)),
            },
        },
    }
}

pub open spec fn mutation_in(b: Seq<u8>) -> Result<MutationData, Fault> {
    helper::alone(mutation_at(b, 0), b, "trailing file mutation input data"@)
}

pub fn write_file_mutation_input(
    kind: IsolatedFileMutationKind,
    source: Option<&[u16]>,
    destination: Option<&[u16]>,
) -> (result: Result<Vec<u8>, IoError>)
    ensures
        ({
            let input = MutationData {
                kind,
                source: codec::slice_view(source),
                destination: codec::slice_view(destination),
            };
            match result {
                Ok(b) => mutation_sendable(input) && b@ == mutation_out(input),
                Err(error) => !mutation_sendable(input) && codec::is_fault(
                    error,
                    codec::too_long(),
                ),
            }
        }),
{
    let mut b: Vec<u8> = Vec::new();
    match kind {
        IsolatedFileMutationKind::CreateFolder => b.push(0),
        IsolatedFileMutationKind::Rename => b.push(1),
    }
    if let Err(error) = write_optional_units(&mut b, source) {
        return Err(error);
    }
    if let Err(error) = write_optional_units(&mut b, destination) {
        return Err(error);
    }
    assert(b@ =~= mutation_out(
        MutationData {
            kind,
            source: codec::slice_view(source),
            destination: codec::slice_view(destination),
        },
    ));
    Ok(b)
}

fn read_mutation_kind(b: &[u8], at: usize) -> (result: Result<
    (IsolatedFileMutationKind, usize),
    IoError,
>)
    requires
        at <= b@.len(),
    ensures
        match (result, mutation_kind_at(b@, at as int)) {
            (Ok(read), Ok(found)) => read.0 == found.0 && read.1 == found.1 && read.1 <= b@.len(),
            (Err(error), Err(fault)) => codec::is_fault(error, fault),
            _ => false,
        },
{
    match read_byte(b, at) {
        Err(error) => Err(error),
        Ok((byte, at)) => if byte == 0 {
            Ok((IsolatedFileMutationKind::CreateFolder, at))
        } else if byte == 1 {
            Ok((IsolatedFileMutationKind::Rename, at))
        } else {
            Err(IoError::new(ErrorKind::InvalidData, "invalid file mutation kind"))
        },
    }
}

pub fn read_file_mutation_input(b: &[u8]) -> (result: Result<MutationInput, IoError>)
    ensures
        match (result, mutation_in(b@)) {
            (Ok(input), Ok(found)) => input.data() == found,
            (Err(error), Err(fault)) => codec::is_fault(error, fault),
            _ => false,
        },
{
    let (kind, at) = match read_mutation_kind(b, 0) {
        Ok(read) => read,
        Err(error) => {
            return Err(error);
        },
    };
    let (source, at) = match read_optional_units(b, at) {
        Ok(read) => read,
        Err(error) => {
            return Err(error);
        },
    };
    let (destination, at) = match read_optional_units(b, at) {
        Ok(read) => read,
        Err(error) => {
            return Err(error);
        },
    };
    if at != b.len() {
        return Err(IoError::new(ErrorKind::InvalidData, "trailing file mutation input data"));
    }
    Ok(MutationInput { kind, source, destination })
}

/// A request to change a file is read as it was written.
pub proof fn law_mutation_input_round_trip(input: MutationData)
    requires
        mutation_sendable(input),
    ensures
        mutation_in(mutation_out(input)) == Ok::<MutationData, Fault>(input),
{
    let b = mutation_out(input);
    let kind = seq![mutation_byte(input.kind)];
    let source = codec::optional_units_out(input.source);
    let destination = codec::optional_units_out(input.destination);
    codec::lemma_whole(b);
    codec::lemma_split(b, 0, kind + source, destination);
    codec::lemma_split(b, 0, kind, source);
    codec::lemma_byte_at(b, 0, mutation_byte(input.kind));
    codec::lemma_optional_units_at(b, 1, input.source);
    codec::lemma_optional_units_at(b, 1 + source.len() as int, input.destination);
}

// ---- what is done ----

/// What the file system is asked to do.
#[derive(Debug, Clone, PartialEq, Eq)]
pub enum MutationPlan {
    CreateFolder { parent: Vec<u16>, name: Vec<u16> },
    Rename { source: Vec<u16>, name: Vec<u16> },
}

pub enum MutationPlanData {
    CreateFolder { parent: Seq<u16>, name: Seq<u16> },
    Rename { source: Seq<u16>, name: Seq<u16> },
}

impl MutationPlan {
    pub open spec fn data(self) -> MutationPlanData {
        match self {
            MutationPlan::CreateFolder { parent, name } => MutationPlanData::CreateFolder {
                parent: parent@,
                name: name@,
            },
            MutationPlan::Rename { source, name } => MutationPlanData::Rename {
                source: source@,
                name: name@,
            },
        }
    }
}

/// What a request asks for, or what it lacks: a folder is created under the parent of the
/// destination, a file takes the name of the destination where it is.
pub open spec fn planned(input: MutationData) -> Result<MutationPlanData, Seq<char>> {
    match input.kind {
        IsolatedFileMutationKind::CreateFolder => match input.destination {
            None => Err("missing destination"@),
            Some(destination) => match (
                winpath::path_parent(destination),
                winpath::path_name(destination),
            ) {
                (None, _) => Err("missing destination parent"@),
                (_, None) => Err("missing destination name"@),
                (Some(parent), Some(name)) => Ok(MutationPlanData::CreateFolder { parent, name }),
            },
        },
        IsolatedFileMutationKind::Rename => match (input.source, input.destination) {
            (None, _) => Err("missing source"@),
            (_, None) => Err("missing destination"@),
            (Some(source), Some(destination)) => match winpath::path_name(destination) {
                None => Err("missing destination name"@),
                Some(name) => Ok(MutationPlanData::Rename { source, name }),
            },
        },
    }
}

fn lacks(message: &str) -> (error: IoError)
    ensures
        errors::fails_with(error, ErrorKind::InvalidInput, message@),
{
    IoError::new(ErrorKind::InvalidInput, message)
}

/// The plan of a request.
pub fn execute_file_mutation(input: &MutationInput) -> (result: Result<MutationPlan, IoError>)
    ensures
        match (result, planned(input.data())) {
            (Ok(plan), Ok(found)) => plan.data() == found,
            (Err(error), Err(message)) => errors::fails_with(
                error,
                ErrorKind::InvalidInput,
                message,
            ),
            _ => false,
        },
{
    match input.kind {
        IsolatedFileMutationKind::CreateFolder => match &input.destination {
            None => Err(lacks("missing destination")),
            Some(destination) => match parent_of(destination) {
                None => Err(lacks("missing destination parent")),
                Some(parent) => match file_name_of(destination) {
                    None => Err(lacks("missing destination name")),
                    Some(name) => Ok(MutationPlan::CreateFolder { parent, name }),
                },
            },
        },
        IsolatedFileMutationKind::Rename => match &input.source {
            None => Err(lacks("missing source")),
            Some(source) => match &input.destination {
                None => Err(lacks("missing destination")),
                Some(destination) => match file_name_of(destination) {
                    None => Err(lacks("missing destination name")),
                    Some(name) => Ok(
                        MutationPlan::Rename { source: units_copy_all(source), name },
                    ),
                },
            },
        },
    }
}

/// The folders that show something else once a plan was carried out: that of the source of a
/// renaming, then that of the completed path where it is another one.
pub open spec fn affected(plan: MutationPlanData, completed: Seq<u16>) -> Seq<Seq<u16>> {
    let first = match plan {
        MutationPlanData::Rename { source, .. } => winpath::path_parent(source),
        MutationPlanData::CreateFolder { .. } => None,
    };
    let second = winpath::path_parent(completed);
    match (first, second) {
        (Some(first), Some(second)) => if winpath::same_path(first, second) {
            seq![first]
        } else {
            seq![first, second]
        },
        (Some(first), None) => seq![first],
        (None, Some(second)) => seq![second],
        (None, None) => Seq::empty(),
    }
}

/// No plan changes more than two folders, so that every answer can be read.
pub proof fn law_few_folders_are_affected(plan: MutationPlanData, completed: Seq<u16>)
    ensures
        affected(plan, completed).len() <= 2,
{
}

/// What is reported once a plan was carried out.
pub fn completed_mutation(plan: &MutationPlan, completed: Vec<u16>) -> (result:
    IsolatedFileMutationResult)
    ensures
        codec::units_view(result.completed_path) == Some(completed@),
        winpath::path_views(result.affected_directories@) == affected(plan.data(), completed@),
{
    let mut affected_directories: Vec<Vec<u16>> = Vec::new();
    if let MutationPlan::Rename { source, .. } = plan {
        if let Some(parent) = parent_of(source) {
            affected_directories.push(parent);
        }
    }
    if let Some(parent) = parent_of(&completed) {
        let known = affected_directories.len() > 0 && path_eq(&affected_directories[0], &parent);
        if !known {
            affected_directories.push(parent);
        }
    }
    assert(winpath::path_views(affected_directories@) =~= affected(plan.data(), completed@));
    IsolatedFileMutationResult { completed_path: Some(completed), affected_directories }
}

// ---- the answer ----

pub open spec fn paths_reader() -> spec_fn(Seq<u8>, int) -> Result<(Seq<u16>, int), Fault> {
    |b: Seq<u8>, at: int| codec::units_at(b, at)
}

pub open spec fn paths_writer() -> spec_fn(Seq<u16>) -> Seq<u8> {
    |path: Seq<u16>| codec::units_out(path)
}

pub struct MutationResultData {
    pub completed: Option<Seq<u16>>,
    pub affected: Seq<Seq<u16>>,
}

impl IsolatedFileMutationResult {
    pub open spec fn data(self) -> MutationResultData {
        MutationResultData {
            completed: codec::units_view(self.completed_path),
            affected: winpath::path_views(self.affected_directories@),
        }
    }
}

pub open spec fn result_out(result: MutationResultData) -> Seq<u8> {
    codec::optional_units_out(result.completed) + bytes::bytes32(result.affected.len() as u32)
        + codec::list_out(paths_writer(), result.affected)
}

pub open spec fn all_sendable(paths: Seq<Seq<u16>>) -> bool {
    forall|i: int| 0 <= i < paths.len() ==> codec::sendable(#[trigger] paths[i])
}

/// What keeps an answer from being sent.
pub open spec fn result_fault(result: MutationResultData) -> Option<Fault> {
    if !codec::optional_sendable(result.completed) {
        Some(codec::too_long())
    } else if result.affected.len() > u32::MAX {
        Some(codec::invalid("too many affected paths"@))
    } else if !all_sendable(result.affected) {
        Some(codec::too_long())
    } else {
        None
    }
}

pub open spec fn result_at(b: Seq<u8>, at: int) -> Result<(MutationResultData, int), Fault> {
    match codec::optional_units_at(b, at) {
        Err(fault) => Err(fault),
        Ok((completed, at)) => match codec::u32_at(b, at) {
            Err(fault) => Err(fault),
            Ok((count, at)) => if count > 4 {
                Err(codec::invalid("too many affected paths"@))
            } else {
                match codec::list_at(paths_reader(), b, at, count as nat) {
                    Err(fault) => Err(fault),
                    Ok((affected, at)) => Ok((MutationResultData { completed, affected }, at)),
                }
            },
        },
    }
}

pub open spec fn result_in(b: Seq<u8>) -> Result<MutationResultData, Fault> {
    helper::alone(result_at(b, 0), b, "trailing file mutation result data"@)
}

pub fn write_file_mutation_result(answer: &IsolatedFileMutationResult) -> (result: Result<
    Vec<u8>,
    IoError,
>)
    ensures
        match result {
            Ok(b) => result_fault(answer.data()) is None && b@ == result_out(answer.data()),
            Err(error) => result_fault(answer.data()) matches Some(fault) && codec::is_fault(
                error,
                fault,
            ),
        },
{
    let mut b: Vec<u8> = Vec::new();
    let completed: Option<&[u16]> = match &answer.completed_path {
        Some(path) => Some(path),
        None => None,
    };
    if let Err(error) = write_optional_units(&mut b, completed) {
        return Err(error);
    }
    let n: usize = answer.affected_directories.len();
    if n > u32::MAX as usize {
        return Err(IoError::new(ErrorKind::InvalidData, "too many affected paths"));
    }
    push_u32(&mut b, n as u32);
    let ghost head = b@;
    let ghost paths = winpath::path_views(answer.affected_directories@);
    assert(paths.take(0) =~= Seq::empty());
    assert(b@ =~= head + codec::list_out(paths_writer(), paths.take(0)));
    let mut i: usize = 0;
    while i < n
        invariant
            i <= n,
            n == answer.affected_directories@.len(),
            n <= u32::MAX,
            paths == winpath::path_views(answer.affected_directories@),
            codec::optional_sendable(answer.data().completed),
            forall|k: int| 0 <= k < i ==> codec::sendable(#[trigger] paths[k]),
            b@ == head + codec::list_out(paths_writer(), paths.take(i as int)),
        decreases n - i,
    {
        let written = write_units(&mut b, &answer.affected_directories[i]);
        assert(paths[i as int] == answer.affected_directories@[i as int]@);
        if let Err(error) = written {
            assert(!codec::sendable(paths[i as int]));
            return Err(error);
        }
        proof {
            let next = paths.take(i + 1);
            assert(next.drop_last() =~= paths.take(i as int));
            assert(next.last() == paths[i as int]);
        }
        i += 1;
        assert(b@ =~= head + codec::list_out(paths_writer(), paths.take(i as int)));
    }
    assert(paths.take(n as int) =~= paths);
    assert(b@ =~= result_out(answer.data()));
    Ok(b)
}

pub fn read_file_mutation_result(b: &[u8]) -> (result: Result<IsolatedFileMutationResult, IoError>)
    ensures
        match (result, result_in(b@)) {
            (Ok(answer), Ok(found)) => answer.data() == found,
            (Err(error), Err(fault)) => codec::is_fault(error, fault),
            _ => false,
        },
{
    let (completed_path, at) = match read_optional_units(b, 0) {
        Ok(read) => read,
        Err(error) => {
            return Err(error);
        },
    };
    let (count, start) = match read_u32(b, at) {
        Ok(read) => read,
        Err(error) => {
            return Err(error);
        },
    };
    if count > 4 {
        return Err(IoError::new(ErrorKind::InvalidData, "too many affected paths"));
    }
    let mut affected_directories: Vec<Vec<u16>> = Vec::new();
    let mut offset: usize = start;
    let mut i: u32 = 0;
    assert(winpath::path_views(affected_directories@) =~= Seq::empty());
    while i < count
        invariant
            i <= count <= 4,
            offset <= b@.len(),
            codec::list_at(paths_reader(), b@, start as int, i as nat) == Ok::<
                (Seq<Seq<u16>>, int),
                Fault,
            >((winpath::path_views(affected_directories@), offset as int)),
            result_at(b@, 0) == (match codec::list_at(
                paths_reader(),
                b@,
                start as int,
                count as nat,
            ) {
                Err(fault) => Err::<(MutationResultData, int), Fault>(fault),
                Ok((affected, at)) => Ok(
                    (
                        MutationResultData {
                            completed: codec::units_view(completed_path),
                            affected,
                        },
                        at,
                    ),
                ),
            }),
        decreases count - i,
    {
        match read_units_at(b, offset) {
            Ok((path, next)) => {
                let ghost before = winpath::path_views(affected_directories@);
                affected_directories.push(path);
                offset = next;
                assert(winpath::path_views(affected_directories@) =~= before.push(path@));
            },
            Err(error) => {
                proof {
                    assert(codec::list_at(
                        paths_reader(),
                        b@,
                        start as int,
                        (i + 1) as nat,
                    ) is Err);
                    codec::lemma_list_stays_faulty(
                        paths_reader(),
                        b@,
                        start as int,
                        (i + 1) as nat,
                        count as nat,
                    );
                }
                return Err(error);
            },
        }
        i += 1;
    }
    if offset != b.len() {
        return Err(IoError::new(ErrorKind::InvalidData, "trailing file mutation result data"));
    }
    Ok(IsolatedFileMutationResult { completed_path, affected_directories })
}

/// An answer about no more than four folders is read as it was written.
pub proof fn law_mutation_result_round_trip(result: MutationResultData)
    requires
        result_fault(result) is None,
        result.affected.len() <= 4,
    ensures
        result_in(result_out(result)) == Ok::<MutationResultData, Fault>(result),
{
    let b = result_out(result);
    let completed = codec::optional_units_out(result.completed);
    let count = bytes::bytes32(result.affected.len() as u32);
    let list = codec::list_out(paths_writer(), result.affected);
    assert(count.len() == 4);
    codec::lemma_whole(b);
    codec::lemma_split(b, 0, completed + count, list);
    codec::lemma_split(b, 0, completed, count);
    codec::lemma_optional_units_at(b, 0, result.completed);
    codec::lemma_u32_at(b, completed.len() as int, result.affected.len() as u32);
    let start = completed.len() + 4int;
    assert forall|i: int, p: int|
        #![trigger codec::holds(b, p, paths_writer()(result.affected[i]))]
        0 <= i < result.affected.len() && codec::holds(
            b,
            p,
            paths_writer()(result.affected[i]),
        ) implies paths_reader()(b, p) == Ok::<(Seq<u16>, int), Fault>(
        (result.affected[i], p + paths_writer()(result.affected[i]).len()),
    ) by {
        codec::lemma_units_at(b, p, result.affected[i]);
    }
    codec::lemma_list_at(paths_reader(), paths_writer(), b, start, result.affected);
}

// ---- laws of the changes ----

/// A request to create or rename arrives as it was made.
pub proof fn law_a_sent_request_arrives(
    kind: IsolatedFileMutationKind,
    source: Option<&[u16]>,
    destination: Option<&[u16]>,
    written: Vec<u8>,
    received: &[u8],
    read: Result<MutationInput, IoError>,
)
    requires
        call_ensures(write_file_mutation_input, (kind, source, destination), Ok(written)),
        received@ == written@,
        call_ensures(read_file_mutation_input, (received,), read),
    ensures
        read matches Ok(input) && {
            &&& input.kind == kind
            &&& match (source, input.source) {
                (Some(a), Some(b)) => a@ == b@,
                (None, None) => true,
                _ => false,
            }
            &&& match (destination, input.destination) {
                (Some(a), Some(b)) => a@ == b@,
                (None, None) => true,
                _ => false,
            }
        },
{
    law_mutation_input_round_trip(
        MutationData {
            kind,
            source: codec::slice_view(source),
            destination: codec::slice_view(destination),
        },
    );
}

/// A folder is created under the parent of the destination with the name of the destination; a
/// file is renamed where it is, to the name of the destination. What is missing is refused.
pub proof fn law_the_plan_follows_the_request(
    input: MutationInput,
    result: Result<MutationPlan, IoError>,
)
    requires
        call_ensures(execute_file_mutation, (&input,), result),
    ensures
        result matches Ok(MutationPlan::CreateFolder { parent, name }) ==> input.kind
            == IsolatedFileMutationKind::CreateFolder && (input.destination matches Some(
            destination,
        ) && winpath::path_parent(destination@) == Some(parent@) && winpath::path_name(
            destination@,
        ) == Some(name@)),
        result matches Ok(MutationPlan::Rename { source, name }) ==> input.kind
            == IsolatedFileMutationKind::Rename && (input.source matches Some(from) && from@
            == source@) && (input.destination matches Some(destination) && winpath::path_name(
            destination@,
        ) == Some(name@)),
        result is Ok <==> (input.destination matches Some(destination) && winpath::path_name(
            destination@,
        ) is Some && match input.kind {
            IsolatedFileMutationKind::CreateFolder => winpath::path_parent(destination@) is Some,
            IsolatedFileMutationKind::Rename => input.source is Some,
        }),
{
    if let Ok(plan) = result {
        assert(plan.data() == planned(input.data())->Ok_0);
    }
}

/// What is reported done lies at the completed path, and the folders to be shown anew are the one
/// that holds it and, after a renaming, the one that held the source; no others.
pub proof fn law_the_right_folders_are_shown_anew(
    plan: MutationPlan,
    completed: Vec<u16>,
    result: IsolatedFileMutationResult,
)
    requires
        call_ensures(completed_mutation, (&plan, completed), result),
    ensures
        result.completed_path matches Some(path) && path@ == completed@,
        winpath::path_parent(completed@) matches Some(parent) ==> exists|i: int|
            0 <= i < result.affected_directories@.len() && winpath::same_path(
                (#[trigger] result.affected_directories@[i])@,
                parent,
            ),
        plan matches MutationPlan::Rename { source, .. } ==> (winpath::path_parent(
            source@,
        ) matches Some(parent) ==> exists|i: int|
            0 <= i < result.affected_directories@.len() && (
            #[trigger] result.affected_directories@[i])@ == parent),
        forall|i: int|
            0 <= i < result.affected_directories@.len() ==> {
                ||| winpath::path_parent(completed@) == Some(
                    (#[trigger] result.affected_directories@[i])@,
                )
                ||| plan matches MutationPlan::Rename { source, .. } && winpath::path_parent(
                    source@,
                ) == Some(result.affected_directories@[i]@)
            },
{
    let folders = result.affected_directories@;
    let views = winpath::path_views(folders);
    assert(views.len() == folders.len());
    assert forall|i: int| 0 <= i < folders.len() implies #[trigger] views[i] == folders[i]@ by {}
    if folders.len() > 0 {
        assert(views[0] == folders[0]@);
    }
    if folders.len() > 1 {
        assert(views[1] == folders[1]@);
    }
}

/// The report of a change arrives as it was made.
pub proof fn law_a_sent_report_arrives(
    answer: IsolatedFileMutationResult,
    written: Vec<u8>,
    received: &[u8],
    read: Result<IsolatedFileMutationResult, IoError>,
)
    requires
        answer.affected_directories@.len() <= 4,
        call_ensures(write_file_mutation_result, (&answer,), Ok(written)),
        received@ == written@,
        call_ensures(read_file_mutation_result, (received,), read),
    ensures
        read matches Ok(found) && {
            &&& match (found.completed_path, answer.completed_path) {
                (Some(a), Some(b)) => a@ == b@,
                (None, None) => true,
                _ => false,
            }
            &&& found.affected_directories@.len() == answer.affected_directories@.len()
            &&& forall|i: int|
                0 <= i < answer.affected_directories@.len() ==> (
                #[trigger] found.affected_directories@[i])@ == answer.affected_directories@[i]@
        },
{
    law_mutation_result_round_trip(answer.data());
    let found = read->Ok_0;
    assert(found.data() == answer.data());
    assert(found.data().affected.len() == found.affected_directories@.len());
    assert forall|i: int| 0 <= i < answer.affected_directories@.len() implies (
    #[trigger] found.affected_directories@[i])@ == answer.affected_directories@[i]@ by {
        assert(found.data().affected[i] == answer.data().affected[i]);
    }
}

} // verus!
