//! Replacing a file as a whole: a temporary file beside it is written, synchronized and moved over
//! it.
use vstd::prelude::*;

use crate::errors::{ErrorKind, IoError};
use crate::text;
use crate::text::{decimal_text, encode_text, push_text, text_of};
use crate::wide::push_units;
use crate::winpath;
use crate::winpath::{file_name_of, join, parent_of};

verus! {

/// The steps at which a write can fail.
#[derive(Debug, Clone, Copy, PartialEq, Eq, Structural)]
pub enum Stage {
    TemporaryCreate,
    TemporaryWrite,
    TemporarySync,
    Replace,
}

impl Stage {
    pub open spec fn label(self) -> Seq<char> {
        match self {
            Stage::TemporaryCreate => "temporary-create"@,
            Stage::TemporaryWrite => "temporary-write"@,
            Stage::TemporarySync => "temporary-sync"@,
            Stage::Replace => "replace"@,
        }
    }

    pub fn name(self) -> (name: &'static str)
        ensures
            name@ == self.label(),
    {
        match self {
            Stage::TemporaryCreate => "temporary-create",
            Stage::TemporaryWrite => "temporary-write",
            Stage::TemporarySync => "temporary-sync",
            Stage::Replace => "replace",
        }
    }
}

/// The failure of a write, with the step at which it came.
#[derive(Debug)]
pub struct AtomicFileError {
    pub kind: ErrorKind,
    pub message: String,
    pub stage: Stage,
    pub raw_os_error: Option<i32>,
    pub cleanup_raw_os_error: Option<i32>,
}

/// The failure of a step at a path, which is given as it is shown.
pub open spec fn fails_at_stage(
    failure: AtomicFileError,
    stage: Stage,
    shown: Seq<char>,
    kind: ErrorKind,
    code: Option<i32>,
    message: Seq<char>,
) -> bool {
    &&& failure.kind == kind
    &&& failure.stage == stage
    &&& failure.raw_os_error == code
    &&& failure.cleanup_raw_os_error is None
    &&& failure.message@ == "atomic session "@ + stage.label() + " failed for "@ + shown + ": "@
        + message
}

pub fn stage_error(stage: Stage, shown: &str, error: IoError) -> (failure: AtomicFileError)
    ensures
        fails_at_stage(failure, stage, shown@, error.kind, error.code, error.message@),
{
    let mut message = text_of("atomic session ");
    push_text(&mut message, stage.name());
    push_text(&mut message, " failed for ");
    push_text(&mut message, shown);
    push_text(&mut message, ": ");
    push_text(&mut message, error.message.as_str());
    AtomicFileError {
        kind: error.kind,
        message,
        stage,
        raw_os_error: error.code,
        cleanup_raw_os_error: None,
    }
}

/// The name of the temporary file for a file, a process and a number.
pub open spec fn temporary_name(name: Seq<u16>, pid: u32, sequence: u64) -> Seq<u16> {
    seq![0x2eu16] + name + text::utf16_encoded(".asterfiles-writing-"@) + text::utf16_encoded(
        text::decimal(pid as nat),
    ) + seq![0x2du16] + text::utf16_encoded(text::decimal(sequence as nat))
}

/// The number of names that are tried.
pub const MAX_TEMPORARY_NAMES: u8 = 128;

/// The search for a temporary name that is free.
#[derive(Debug)]
pub struct TemporarySearch {
    parent: Vec<u16>,
    name: Vec<u16>,
    tried: u8,
}

/// What the search knows.
pub struct Search {
    pub parent: Seq<u16>,
    pub name: Seq<u16>,
    pub tried: int,
}

impl View for TemporarySearch {
    type V = Search;

    closed spec fn view(&self) -> Search {
        Search { parent: self.parent@, name: self.name@, tried: self.tried as int }
    }
}

/// How the search goes on after a name could not be used.
#[derive(Debug)]
pub enum SearchStep {
    Again,
    Fail(AtomicFileError),
}

impl TemporarySearch {
    /// Begins the search beside the destination, which is given as a path and as it is shown.
    pub fn start(path: &[u16], shown: &str) -> (result: Result<TemporarySearch, AtomicFileError>)
        ensures
            match (winpath::path_parent(path@), winpath::path_name(path@)) {
                (Some(parent), Some(name)) => result matches Ok(search) && search@ == (Search {
                    parent,
                    name,
                    tried: 0,
                }),
                (Some(_), None) => result matches Err(failure) && fails_at_stage(
                    failure,
                    Stage::TemporaryCreate,
                    shown@,
                    ErrorKind::InvalidInput,
                    None,
                    "destination has no file name"@,
                ),
                (None, _) => result matches Err(failure) && fails_at_stage(
                    failure,
                    Stage::TemporaryCreate,
                    shown@,
                    ErrorKind::InvalidInput,
                    None,
                    "destination has no parent directory"@,
                ),
            },
    {
        let parent = match parent_of(path) {
            Some(parent) => parent,
            None => {
                return Err(
                    stage_error(
                        Stage::TemporaryCreate,
                        shown,
                        IoError::new(
                            ErrorKind::InvalidInput,
                            "destination has no parent directory",
                        ),
                    ),
                );
            },
        };
        match file_name_of(path) {
            Some(name) => Ok(TemporarySearch { parent, name, tried: 0 }),
            None => Err(
                stage_error(
                    Stage::TemporaryCreate,
                    shown,
                    IoError::new(ErrorKind::InvalidInput, "destination has no file name"),
                ),
            ),
        }
    }

    /// The path to try with the next number.
    pub fn candidate(&self, pid: u32, sequence: u64) -> (path: Vec<u16>)
        ensures
            path@ == winpath::joined(self@.parent, temporary_name(self@.name, pid, sequence)),
    {
        let mut name: Vec<u16> = Vec::new();
        name.push(0x2e);
        push_units(&mut name, self.name.as_slice());
        let infix = encode_text(".asterfiles-writing-");
        push_units(&mut name, infix.as_slice());
        let process = encode_text(decimal_text(pid as u64).as_str());
        push_units(&mut name, process.as_slice());
        name.push(0x2d);
        let number = encode_text(decimal_text(sequence).as_str());
        push_units(&mut name, number.as_slice());
        assert(name@ =~= temporary_name(self.name@, pid, sequence));
        join(self.parent.as_slice(), name.as_slice())
    }

    /// The file could not be created: `shown` is the destination and `shown_candidate` the path
    /// that was tried, as they are shown.
    pub fn refused(&mut self, shown: &str, shown_candidate: &str, error: IoError) -> (step:
        SearchStep)
        requires
            old(self)@.tried < MAX_TEMPORARY_NAMES,
        ensures
            final(self)@ == (Search { tried: old(self)@.tried + 1, ..old(self)@ }),
            if error.kind != ErrorKind::AlreadyExists {
                step matches SearchStep::Fail(failure) && fails_at_stage(
                    failure,
                    Stage::TemporaryCreate,
                    shown_candidate@,
                    error.kind,
                    error.code,
                    error.message@,
                )
            } else if final(self)@.tried < MAX_TEMPORARY_NAMES {
                step is Again
            } else {
                step matches SearchStep::Fail(failure) && fails_at_stage(
                    failure,
                    Stage::TemporaryCreate,
                    shown@,
                    ErrorKind::AlreadyExists,
                    None,
                    "could not allocate a unique temporary file"@,
                )
            },
    {
        self.tried = self.tried + 1;
        if error.kind != ErrorKind::AlreadyExists {
            return SearchStep::Fail(stage_error(Stage::TemporaryCreate, shown_candidate, error));
        }
        if self.tried < MAX_TEMPORARY_NAMES {
            SearchStep::Again
        } else {
            SearchStep::Fail(
                stage_error(
                    Stage::TemporaryCreate,
                    shown,
                    IoError::new(
                        ErrorKind::AlreadyExists,
                        "could not allocate a unique temporary file",
                    ),
                ),
            )
        }
    }
}

/// The failure of a write after the temporary file has been removed, or could not be. A file that
/// is already gone counts as removed.
pub fn clean_up_after_error(
    failure: AtomicFileError,
    shown_temporary: &str,
    cleanup: Option<IoError>,
) -> (reported: AtomicFileError)
    ensures
        match cleanup {
            Some(error) if error.kind != ErrorKind::NotFound => {
                &&& reported.kind == failure.kind
                &&& reported.stage == failure.stage
                &&& reported.raw_os_error == failure.raw_os_error
                &&& reported.cleanup_raw_os_error == error.code
                &&& reported.message@ == failure.message@ + "; temporary cleanup failed for "@
                    + shown_temporary@ + ": "@ + error.message@
            },
            _ => reported == failure,
        },
{
    match cleanup {
        Some(error) => {
            if error.kind == ErrorKind::NotFound {
                return failure;
            }
            let mut message = text_of(failure.message.as_str());
            push_text(&mut message, "; temporary cleanup failed for ");
            push_text(&mut message, shown_temporary);
            push_text(&mut message, ": ");
            push_text(&mut message, error.message.as_str());
            AtomicFileError {
                kind: failure.kind,
                message,
                stage: failure.stage,
                raw_os_error: failure.raw_os_error,
                cleanup_raw_os_error: error.code,
            }
        },
        None => failure,
    }
}

// ---- the steps of a write ----

/// What follows a step of a write.
#[derive(Debug)]
pub enum WriteStep {
    /// Write the bytes to the temporary file.
    Write,
    /// Have the system put them on the disk.
    Sync,
    /// Put the temporary file in the destination's place.
    Replace,
    Done,
    /// Remove the temporary file, then report this.
    CleanUp(AtomicFileError),
}

/// How a write goes on after a step, which has failed or has not. The steps before the last are
/// reported with the path of the temporary file, the last with that of the destination; both are
/// given as they are shown.
pub fn write(done: Stage, failure: Option<IoError>, shown: &str, shown_temporary: &str) -> (step:
    WriteStep)
    ensures
        match failure {
            Some(error) => step matches WriteStep::CleanUp(reported) && fails_at_stage(
                reported,
                done,
                if done == Stage::Replace {
                    shown@
                } else {
                    shown_temporary@
                },
                error.kind,
                error.code,
                error.message@,
            ),
            None => step == match done {
                Stage::TemporaryCreate => WriteStep::Write,
                Stage::TemporaryWrite => WriteStep::Sync,
                Stage::TemporarySync => WriteStep::Replace,
                Stage::Replace => WriteStep::Done,
            },
        },
{
    match failure {
        Some(error) => {
            let path = if done == Stage::Replace {
                shown
            } else {
                shown_temporary
            };
            WriteStep::CleanUp(stage_error(done, path, error))
        },
        None => match done {
            Stage::TemporaryCreate => WriteStep::Write,
            Stage::TemporaryWrite => WriteStep::Sync,
            Stage::TemporarySync => WriteStep::Replace,
            Stage::Replace => WriteStep::Done,
        },
    }
}

/// A file is replaced only once its new contents were written and synchronized; a step that failed
/// is followed by none but the clean-up, which keeps the error.
pub proof fn law_a_file_is_replaced_last(
    done: Stage,
    failure: Option<IoError>,
    shown: &str,
    shown_temporary: &str,
    step: WriteStep,
)
    requires
        call_ensures(write, (done, failure, shown, shown_temporary), step),
    ensures
        step is CleanUp <==> failure is Some,
        step is Write <==> failure is None && done == Stage::TemporaryCreate,
        step is Sync <==> failure is None && done == Stage::TemporaryWrite,
        step is Replace <==> failure is None && done == Stage::TemporarySync,
        step is Done <==> failure is None && done == Stage::Replace,
        step matches WriteStep::CleanUp(reported) ==> reported.stage == done && reported.kind
            == failure->0.kind && reported.raw_os_error == failure->0.code,
{
}

/// A clean-up that fails changes nothing of what is reported first: where, how and with which number
/// the write failed. A temporary file that is gone already is no further failure.
pub proof fn law_the_first_error_is_reported(
    failure: AtomicFileError,
    shown_temporary: &str,
    cleanup: Option<IoError>,
    reported: AtomicFileError,
)
    requires
        call_ensures(clean_up_after_error, (failure, shown_temporary, cleanup), reported),
    ensures
        reported.kind == failure.kind && reported.stage == failure.stage,
        reported.raw_os_error == failure.raw_os_error,
        failure.message@.is_prefix_of(reported.message@),
        reported == failure <== cleanup is None || cleanup->0.kind == ErrorKind::NotFound,
        cleanup is Some && cleanup->0.kind != ErrorKind::NotFound ==> reported.cleanup_raw_os_error
            == cleanup->0.code && reported.message@.len() > failure.message@.len(),
{
    reveal_strlit("; temporary cleanup failed for ");
    if cleanup is Some && cleanup->0.kind != ErrorKind::NotFound {
        assert(reported.message@.subrange(0, failure.message@.len() as int) =~= failure.message@);
    } else {
        assert(failure.message@.subrange(0, failure.message@.len() as int) =~= failure.message@);
    }
}

/// Another name is tried only where the last was taken, and no more than 128 of them.
pub proof fn law_another_name_is_tried_while_taken(
    search: &mut TemporarySearch,
    shown: &str,
    shown_candidate: &str,
    error: IoError,
    step: SearchStep,
)
    requires
        old(search)@.tried < 128,
        call_ensures(TemporarySearch::refused, (search, shown, shown_candidate, error), step),
    ensures
        final(search)@.tried == old(search)@.tried + 1,
        final(search)@.parent == old(search)@.parent && final(search)@.name == old(search)@.name,
        step is Again <==> error.kind == ErrorKind::AlreadyExists && final(search)@.tried < 128,
        step matches SearchStep::Fail(failure) ==> failure.stage == Stage::TemporaryCreate
            && failure.kind == error.kind,
{
}

/// The temporary file stands in the folder of the file, under a name that begins with a dot and the
/// name of the file.
pub proof fn law_temporary_files_stand_beside(
    path: &[u16],
    shown: &str,
    search: TemporarySearch,
    pid: u32,
    sequence: u64,
    candidate: Vec<u16>,
)
    requires
        call_ensures(TemporarySearch::start, (path, shown), Ok(search)),
        call_ensures(TemporarySearch::candidate, (&search, pid, sequence), candidate),
    ensures
        winpath::path_parent(path@) is Some && winpath::path_name(path@) is Some,
        search@.tried == 0,
        exists|rest: Seq<u16>|
            {
                &&& rest.len() > 0
                &&& candidate@ == winpath::joined(
                    winpath::path_parent(path@)->0,
                    #[trigger] (seq![0x2eu16] + winpath::path_name(path@)->0 + rest),
                )
            },
{
    let name = winpath::path_name(path@)->0;
    let rest = text::utf16_encoded(".asterfiles-writing-"@) + text::utf16_encoded(
        text::decimal(pid as nat),
    ) + seq![0x2du16] + text::utf16_encoded(text::decimal(sequence as nat));
    assert(temporary_name(name, pid, sequence) =~= seq![0x2eu16] + name + rest);
    assert(candidate@ == winpath::joined(
        winpath::path_parent(path@)->0,
        seq![0x2eu16] + name + rest,
    ));
}

} // verus!
