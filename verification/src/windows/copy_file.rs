//! The rules of a file copy that can be paused, cancelled and repeated.
//!
//! A [`CopyRun`] holds what one copy knows. Around each attempt of the system's copy function the
//! caller asks `begin_attempt` for the flags, hands every progress message to `progress` and
//! `answer`, and hands the outcome to `attempt_ended`, which says how to go on.
use vstd::prelude::*;

use crate::errors;
use crate::errors::{ErrorKind, IoError};
use crate::network;
use crate::network::is_unc_path;
use crate::text;
use crate::text::{
    decode_lossy, push_decimal, push_text, push_upper_hex, string_from_chars, text_of,
};

verus! {

#[derive(Debug, Clone, Copy, PartialEq, Eq, Structural)]
pub enum CopyFileErrorKind {
    Cancelled,
    Failed,
}

#[derive(Debug)]
pub struct CopyFileError {
    pub kind: CopyFileErrorKind,
    pub error: IoError,
}

/// Fail if the destination exists, keep sparse files sparse.
pub const BASE_FLAGS: u32 = 0x2000_0001;

pub const COMPRESSED_TRAFFIC: u32 = 0x1000_0000;

pub const RESUME_FROM_PAUSE: u32 = 0x4000;

pub const PROGRESS_CONTINUE: u32 = 0;

pub const PROGRESS_CANCEL: u32 = 1;

pub const PROGRESS_PAUSE: u32 = 4;

pub const ERROR_REQUEST_ABORTED: i32 = 1235;

pub const ERROR_REQUEST_PAUSED: u32 = 3050;

/// How often a copy over the network is repeated.
pub const MAX_RETRIES: u8 = 2;

pub const RETRY_DELAY_MS: u64 = 250;

pub open spec fn copy_flags(network_copy: bool, resume: bool) -> int {
    BASE_FLAGS + (if network_copy {
        COMPRESSED_TRAFFIC as int
    } else {
        0
    }) + (if resume {
        RESUME_FROM_PAUSE as int
    } else {
        0
    })
}

/// The system error number inside a result code of the Win32 facility.
pub open spec fn win32_code(hresult: u32) -> Option<u32> {
    if (hresult / 0x1_0000) % 0x800 == 7 {
        Some((hresult % 0x1_0000) as u32)
    } else {
        None
    }
}

pub fn win32_code_of(hresult: u32) -> (code: Option<u32>)
    ensures
        code == win32_code(hresult),
{
    if (hresult / 0x1_0000) % 0x800 == 7 {
        Some(hresult % 0x1_0000)
    } else {
        None
    }
}

/// The errors of a connection that may come back: bad network path or name, connection
/// unavailable, host or network unreachable, name deleted, no network, timeout, unexpected
/// network error.
pub open spec fn retryable(code: u32) -> bool {
    code == 53 || code == 67 || code == 1201 || code == 1232 || code == 64 || code == 1231 || code
        == 1222 || code == 121 || code == 59
}

pub fn is_retryable_network_error(code: u32) -> (again: bool)
    ensures
        again == retryable(code),
{
    code == 53 || code == 67 || code == 1201 || code == 1232 || code == 64 || code == 1231 || code
        == 1222 || code == 121 || code == 59
}

/// The error of a copy that the user has cancelled: that of an aborted request, in the words that
/// the system has for it.
pub open spec fn is_cancelled_error(error: CopyFileError, words: Seq<char>) -> bool {
    error.kind == CopyFileErrorKind::Cancelled && error.error.code == Some(ERROR_REQUEST_ABORTED)
        && error.error.kind == ErrorKind::Other && error.error.message@ == words
}

pub fn cancelled_error(words: String) -> (error: CopyFileError)
    ensures
        is_cancelled_error(error, words@),
{
    CopyFileError {
        kind: CopyFileErrorKind::Cancelled,
        error: IoError::with_code(ErrorKind::Other, ERROR_REQUEST_ABORTED, words),
    }
}

/// How an attempt of the system's copy function failed.
#[derive(Debug)]
pub struct AttemptFailure {
    pub hresult: u32,
    pub message: String,
}

/// The number of a failure as it is shown.
pub open spec fn shown_code(hresult: u32) -> Seq<char> {
    match win32_code(hresult) {
        Some(code) => "Win32 "@ + text::decimal(code as nat),
        None => "HRESULT 0x"@ + text::upper_hex_digits(hresult as nat, 8),
    }
}

pub open spec fn failure_text(
    failure: AttemptFailure,
    source: Seq<u16>,
    destination: Seq<u16>,
) -> Seq<char> {
    "CopyFile2 failed ("@ + shown_code(failure.hresult) + ") from "@ + text::utf16_lossy(source)
        + " to "@ + text::utf16_lossy(destination) + ": "@ + failure.message@
}

/// How the copy goes on after an attempt.
#[derive(Debug)]
pub enum CopyStep {
    /// The copy is complete, with so many bytes.
    Done(u64),
    Fail(CopyFileError),
    /// Wait until the user goes on, then call `resumed`.
    WaitWhilePaused,
    /// Remove the destination, wait so many milliseconds, then try again.
    RetryAfter(u64),
}

/// The total that is known after a chunk.
pub open spec fn known_total(known: u64, total: u64) -> u64 {
    if total > known {
        total
    } else {
        known
    }
}

/// What the caller does with a progress message.
#[derive(Debug, Clone, Copy, PartialEq, Eq, Structural)]
pub enum ProgressStep {
    /// Answer that the copy is cancelled.
    Cancel,
    /// Report so many further bytes, then call `answer`.
    Report(u64),
    /// Call `answer`.
    Answer,
}

/// What one copy knows between its attempts.
#[derive(Debug, Clone, Copy, PartialEq, Eq, Structural)]
pub struct CopyRun {
    pub network_copy: bool,
    pub resume: bool,
    pub retry_count: u8,
    pub last_total: u64,
    pub pause_requested: bool,
    pub callback_panicked: bool,
}

/// The kinds of outcome that an attempt can have.
#[derive(Debug, Clone, Copy, PartialEq, Eq, Structural)]
pub enum CopyOutcome {
    Complete,
    CallbackFailed,
    Cancelled,
    Paused,
    Retry,
    Failed,
}

/// How the end of an attempt is judged; `hresult` is missing where it succeeded.
pub open spec fn outcome_of(run: CopyRun, hresult: Option<u32>, cancelled: bool) -> CopyOutcome {
    if run.callback_panicked {
        CopyOutcome::CallbackFailed
    } else {
        match hresult {
            None => CopyOutcome::Complete,
            Some(hresult) => if cancelled {
                CopyOutcome::Cancelled
            } else if run.pause_requested && win32_code(hresult) == Some(ERROR_REQUEST_PAUSED) {
                CopyOutcome::Paused
            } else if run.network_copy && run.retry_count < MAX_RETRIES && (win32_code(
                hresult,
            ) matches Some(code) && retryable(code)) {
                CopyOutcome::Retry
            } else {
                CopyOutcome::Failed
            },
        }
    }
}

impl CopyRun {
    /// The type's invariant.
    pub open spec fn valid(self) -> bool {
        self.retry_count <= MAX_RETRIES
    }

    /// A copy of the file at `source` to `destination`.
    pub fn new(source: &[u16], destination: &[u16]) -> (run: CopyRun)
        ensures
            run == (CopyRun {
                network_copy: network::is_unc(source@) || network::is_unc(destination@),
                resume: false,
                retry_count: 0,
                last_total: 0,
                pause_requested: false,
                callback_panicked: false,
            }),
            run.valid(),
    {
        CopyRun {
            network_copy: is_unc_path(source) || is_unc_path(destination),
            resume: false,
            retry_count: 0,
            last_total: 0,
            pause_requested: false,
            callback_panicked: false,
        }
    }

    /// The flags for the next attempt, unless the copy is cancelled; `cancelled` then holds the
    /// system's words for an aborted request.
    pub fn begin_attempt(&mut self, cancelled: Option<String>) -> (flags: Result<u32, CopyFileError>)
        ensures
            match flags {
                Ok(flags) => cancelled is None && flags == copy_flags(old(self).network_copy, old(
                    self,
                ).resume) && *final(self) == (CopyRun { pause_requested: false, ..*old(self) }),
                Err(error) => cancelled matches Some(words) && is_cancelled_error(error, words@)
                    && *final(self) == *old(self),
            },
    {
        if let Some(words) = cancelled {
            return Err(cancelled_error(words));
        }
        self.pause_requested = false;
        let mut flags: u32 = BASE_FLAGS;
        if self.network_copy {
            flags = flags + COMPRESSED_TRAFFIC;
        }
        if self.resume {
            flags = flags + RESUME_FROM_PAUSE;
        }
        Ok(flags)
    }

    /// A progress message; `transferred` is the total of a finished chunk.
    pub fn progress(&mut self, cancelled: bool, transferred: Option<u64>) -> (step: ProgressStep)
        ensures
            *final(self) == (CopyRun {
                last_total: match transferred {
                    Some(total) if !cancelled => known_total(old(self).last_total, total),
                    _ => old(self).last_total,
                },
                ..*old(self)
            }),
            step == if cancelled {
                ProgressStep::Cancel
            } else if final(self).last_total > old(self).last_total {
                ProgressStep::Report((final(self).last_total - old(self).last_total) as u64)
            } else {
                ProgressStep::Answer
            },
    {
        if cancelled {
            return ProgressStep::Cancel;
        }
        match transferred {
            Some(total) => {
                if total > self.last_total {
                    let advanced: u64 = total - self.last_total;
                    self.last_total = total;
                    return ProgressStep::Report(advanced);
                }
            },
            None => {},
        }
        ProgressStep::Answer
    }

    /// The answer to a progress message, once its bytes have been reported.
    pub fn answer(&mut self, report_failed: bool, paused: bool) -> (action: u32)
        ensures
            *final(self) == (CopyRun {
                callback_panicked: old(self).callback_panicked || report_failed,
                pause_requested: old(self).pause_requested || (!report_failed && paused),
                ..*old(self)
            }),
            action == if report_failed {
                PROGRESS_CANCEL
            } else if paused {
                PROGRESS_PAUSE
            } else {
                PROGRESS_CONTINUE
            },
    {
        if report_failed {
            self.callback_panicked = true;
            return PROGRESS_CANCEL;
        }
        if paused {
            self.pause_requested = true;
            PROGRESS_PAUSE
        } else {
            PROGRESS_CONTINUE
        }
    }

    /// How to go on after an attempt; `cancelled` holds the system's words for an aborted request
    /// once the user has cancelled.
    pub fn attempt_ended(
        &mut self,
        source: &[u16],
        destination: &[u16],
        failure: Option<AttemptFailure>,
        cancelled: Option<String>,
    ) -> (step: CopyStep)
        requires
            old(self).valid(),
        ensures
            final(self).valid(),
            ({
                let hresult = match failure {
                    Some(failure) => Some(failure.hresult),
                    None => None,
                };
                let outcome = outcome_of(*old(self), hresult, cancelled is Some);
                &&& *final(self) == if outcome == CopyOutcome::Retry {
                    CopyRun {
                        retry_count: (old(self).retry_count + 1) as u8,
                        resume: false,
                        ..*old(self)
                    }
                } else {
                    *old(self)
                }
                &&& match outcome {
                    CopyOutcome::Complete => step == CopyStep::Done(old(self).last_total),
                    CopyOutcome::Cancelled => step matches CopyStep::Fail(error)
                        && is_cancelled_error(error, (cancelled->0)@),
                    CopyOutcome::Paused => step == CopyStep::WaitWhilePaused,
                    CopyOutcome::Retry => step == CopyStep::RetryAfter(
                        (RETRY_DELAY_MS * (old(self).retry_count + 1)) as u64,
                    ),
                    CopyOutcome::CallbackFailed => step matches CopyStep::Fail(error) && error.kind
                        == CopyFileErrorKind::Failed && errors::fails_with(
                        error.error,
                        ErrorKind::Other,
                        "CopyFile2 progress callback failed"@,
                    ),
                    CopyOutcome::Failed => step matches CopyStep::Fail(error) && error.kind
                        == CopyFileErrorKind::Failed && errors::fails_with(
                        error.error,
                        ErrorKind::Other,
                        failure_text(failure->0, source@, destination@),
                    ),
                }
            }),
    {
        if self.callback_panicked {
            return CopyStep::Fail(
                CopyFileError {
                    kind: CopyFileErrorKind::Failed,
                    error: IoError::new(ErrorKind::Other, "CopyFile2 progress callback failed"),
                },
            );
        }
        let failure = match failure {
            None => {
                return CopyStep::Done(self.last_total);
            },
            Some(failure) => failure,
        };
        if let Some(words) = cancelled {
            return CopyStep::Fail(cancelled_error(words));
        }
        let code = win32_code_of(failure.hresult);
        if self.pause_requested && matches!(code, Some(number) if number == ERROR_REQUEST_PAUSED) {
            return CopyStep::WaitWhilePaused;
        }
        let again = match code {
            Some(number) => is_retryable_network_error(number),
            None => false,
        };
        if self.network_copy && self.retry_count < MAX_RETRIES && again {
            self.retry_count = self.retry_count + 1;
            self.resume = false;
            return CopyStep::RetryAfter(RETRY_DELAY_MS * self.retry_count as u64);
        }
        let mut message = text_of("CopyFile2 failed (");
        let mut shown = match code {
            Some(_) => text_of("Win32 "),
            None => text_of("HRESULT 0x"),
        };
        match code {
            Some(number) => push_decimal(&mut shown, number as u64),
            None => push_upper_hex(&mut shown, failure.hresult as u64, 8),
        }
        push_text(&mut message, shown.as_str());
        push_text(&mut message, ") from ");
        let from = decode_lossy(source);
        push_text(&mut message, string_from_chars(from.as_slice()).as_str());
        push_text(&mut message, " to ");
        let to = decode_lossy(destination);
        push_text(&mut message, string_from_chars(to.as_slice()).as_str());
        push_text(&mut message, ": ");
        push_text(&mut message, failure.message.as_str());
        CopyStep::Fail(
            CopyFileError {
                kind: CopyFileErrorKind::Failed,
                error: IoError { kind: ErrorKind::Other, code: None, message },
            },
        )
    }

    /// The user goes on after a pause, or has cancelled meanwhile.
    pub fn resumed(&mut self, cancelled: Option<String>) -> (result: Result<(), CopyFileError>)
        ensures
            match result {
                Ok(_) => cancelled is None && *final(self) == (CopyRun { resume: true, ..*old(self) }),
                Err(error) => cancelled matches Some(words) && is_cancelled_error(error, words@)
                    && *final(self) == *old(self),
            },
    {
        if let Some(words) = cancelled {
            return Err(cancelled_error(words));
        }
        self.resume = true;
        Ok(())
    }
}

/// The reported total never shrinks, and what is reported is exactly what it grew by.
pub proof fn law_progress_adds_up(before: u64, totals: Seq<u64>)
    ensures
        before <= running_total(before, totals),
        running_total(before, totals) == before + reported_bytes(before, totals),
    decreases totals.len(),
{
    if totals.len() > 0 {
        law_progress_adds_up(before, totals.drop_last());
    }
}

/// The total that a copy knows after a series of chunks.
pub open spec fn running_total(before: u64, totals: Seq<u64>) -> u64
    decreases totals.len(),
{
    if totals.len() == 0 {
        before
    } else {
        known_total(running_total(before, totals.drop_last()), totals.last())
    }
}

/// The bytes that a copy has reported after a series of chunks.
pub open spec fn reported_bytes(before: u64, totals: Seq<u64>) -> int
    decreases totals.len(),
{
    if totals.len() == 0 {
        0
    } else {
        let known = running_total(before, totals.drop_last());
        reported_bytes(before, totals.drop_last()) + (known_total(known, totals.last()) - known)
    }
}

/// A copy between local paths is never repeated.
pub proof fn law_local_copies_are_not_repeated(run: CopyRun, hresult: Option<u32>, cancelled: bool)
    requires
        !run.network_copy,
    ensures
        outcome_of(run, hresult, cancelled) != CopyOutcome::Retry,
{
}

/// After the last repetition a further failure is final.
pub proof fn law_repetitions_end(run: CopyRun, hresult: Option<u32>, cancelled: bool)
    requires
        run.retry_count >= MAX_RETRIES,
    ensures
        outcome_of(run, hresult, cancelled) != CopyOutcome::Retry,
{
}

/// A copy is made over the network where either end is on a share; an attempt never overwrites,
/// keeps sparse files sparse, asks for compression exactly over the network, and takes up an earlier
/// attempt exactly after a pause.
pub proof fn law_attempts_never_overwrite(
    source: &[u16],
    destination: &[u16],
    fresh: CopyRun,
    run: &mut CopyRun,
    flags: u32,
)
    requires
        call_ensures(CopyRun::new, (source, destination), fresh),
        call_ensures(CopyRun::begin_attempt, (run, None::<String>), Ok(flags)),
    ensures
        fresh.network_copy <==> network::is_unc(source@) || network::is_unc(destination@),
        !fresh.resume && fresh.retry_count == 0 && fresh.last_total == 0,
        flags & 1 != 0,
        flags & 0x2000_0000 != 0,
        flags & 0x1000_0000 != 0 <==> old(run).network_copy,
        flags & 0x4000 != 0 <==> old(run).resume,
        !final(run).pause_requested,
        final(run).last_total == old(run).last_total,
        final(run).network_copy == old(run).network_copy,
        final(run).resume == old(run).resume,
        final(run).retry_count == old(run).retry_count,
{
    assert(flags == 0x2000_0001 || flags == 0x3000_0001 || flags == 0x2000_4001 || flags
        == 0x3000_4001);
    assert(flags & 1 != 0 && flags & 0x2000_0000 != 0 && (flags & 0x1000_0000 != 0 <==> flags
        == 0x3000_0001 || flags == 0x3000_4001) && (flags & 0x4000 != 0 <==> flags == 0x2000_4001
        || flags == 0x3000_4001)) by (bit_vector)
        requires
            flags == 0x2000_0001u32 || flags == 0x3000_0001u32 || flags == 0x2000_4001u32 || flags
                == 0x3000_4001u32,
    ;
}

/// A cancelled copy is not begun, not gone on with and not reported any further; and what is
/// reported of a running one is exactly what has been copied since the last report.
pub proof fn law_every_byte_is_reported_once(
    run: &mut CopyRun,
    cancelled: bool,
    transferred: Option<u64>,
    step: ProgressStep,
)
    requires
        call_ensures(CopyRun::progress, (run, cancelled, transferred), step),
    ensures
        step is Cancel <==> cancelled,
        final(run).last_total >= old(run).last_total,
        step matches ProgressStep::Report(bytes) ==> bytes > 0 && final(run).last_total == old(run).last_total + bytes && transferred == Some(final(run).last_total),
        !(step is Report) ==> final(run).last_total == old(run).last_total,
        !cancelled ==> (transferred matches Some(total) ==> final(run).last_total >= total),
        final(run).retry_count == old(run).retry_count && final(run).resume == old(run).resume,
        final(run).callback_panicked == old(run).callback_panicked,
        final(run).pause_requested == old(run).pause_requested,
{
}

/// The answer to a progress message stops the copy where the report has failed, holds it where the
/// user has paused, and lets it go on otherwise; and this is remembered for the end of the attempt.
pub proof fn law_answers_are_remembered(
    run: &mut CopyRun,
    report_failed: bool,
    paused: bool,
    action: u32,
)
    requires
        call_ensures(CopyRun::answer, (run, report_failed, paused), action),
    ensures
        action == 1 <==> report_failed,
        action == 4 <==> paused && !report_failed,
        action == 0 <==> !paused && !report_failed,
        final(run).callback_panicked <==> old(run).callback_panicked || action == 1,
        final(run).pause_requested <==> old(run).pause_requested || action == 4,
        final(run).last_total == old(run).last_total,
        final(run).retry_count == old(run).retry_count && final(run).resume == old(run).resume,
{
}

/// An attempt that succeeded completes the copy, with the bytes that were reported, and one that
/// failed never does. A cancelled attempt fails as cancelled. Only a copy over the network is tried
/// again, from its beginning, no more than twice and after a longer wait each time.
pub proof fn law_a_failed_attempt_never_completes(
    run: &mut CopyRun,
    source: &[u16],
    destination: &[u16],
    failure: Option<AttemptFailure>,
    cancelled: Option<String>,
    step: CopyStep,
)
    requires
        call_ensures(CopyRun::attempt_ended, (run, source, destination, failure, cancelled), step),
    ensures
        step is Done <==> failure is None && !old(run).callback_panicked,
        step matches CopyStep::Done(bytes) ==> bytes == old(run).last_total,
        failure is Some && cancelled is Some && !old(run).callback_panicked ==> step is Fail
            && step->Fail_0.kind == CopyFileErrorKind::Cancelled,
        step is Fail ==> (step->Fail_0.kind == CopyFileErrorKind::Cancelled <==> failure is Some
            && cancelled is Some && !old(run).callback_panicked),
        step is WaitWhilePaused ==> old(run).pause_requested && cancelled is None && failure is Some
            && failure->0.hresult % 0x1_0000 == 3050,
        step matches CopyStep::RetryAfter(ms) ==> old(run).network_copy && cancelled is None
            && old(run).retry_count < 2 && ms == 250 * (old(run).retry_count + 1) && final(run).retry_count == old(run).retry_count + 1 && !final(run).resume,
        !(step is RetryAfter) ==> *final(run) == *old(run),
        final(run).last_total == old(run).last_total,
        old(run).callback_panicked ==> step is Fail,
{
}

/// Which failures are worth another try: the network name or path is not there or not reachable,
/// the connection was reset, closed or timed out. Nothing that is not an error of the system is.
pub proof fn law_lost_connections_are_tried_again(
    hresult: u32,
    code: Option<u32>,
    number: u32,
    again: bool,
)
    requires
        call_ensures(win32_code_of, (hresult,), code),
        call_ensures(is_retryable_network_error, (number,), again),
    ensures
        code matches Some(n) ==> n <= 0xffff && (hresult == 0x8007_0000 + n || hresult == 0x7_0000
            + n || (hresult / 0x1_0000) % 0x800 == 7),
        0x8007_0000 <= hresult <= 0x8007_ffff ==> code == Some((hresult - 0x8007_0000) as u32),
        hresult < 0x7_0000 ==> code is None,
        again <==> seq![53u32, 59, 64, 67, 121, 1201, 1222, 1231, 1232].contains(number),
{
    let codes = seq![53u32, 59, 64, 67, 121, 1201, 1222, 1231, 1232];
    assert(codes[0] == 53 && codes[1] == 59 && codes[2] == 64 && codes[3] == 67 && codes[4] == 121
        && codes[5] == 1201 && codes[6] == 1222 && codes[7] == 1231 && codes[8] == 1232);
    if codes.contains(number) {
        let k = choose|k: int| 0 <= k < codes.len() && codes[k] == number;
        assert(again);
    }
}

/// After a pause the next attempt takes up where the last one stopped, unless the copy has been
/// cancelled meanwhile.
pub proof fn law_a_paused_copy_is_taken_up(
    run: &mut CopyRun,
    cancelled: Option<String>,
    result: Result<(), CopyFileError>,
)
    requires
        call_ensures(CopyRun::resumed, (run, cancelled), result),
    ensures
        result is Ok <==> cancelled is None,
        result is Ok ==> final(run).resume && final(run).last_total == old(run).last_total && final(run).retry_count == old(run).retry_count && final(run).network_copy == old(run).network_copy,
        result matches Err(error) ==> error.kind == CopyFileErrorKind::Cancelled
            && error.error.code == Some(1235i32) && error.error.message@ == cancelled->0@,
{
}

} // verus!
