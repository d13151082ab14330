//! The log of file operations: one JSON object on each line.
use vstd::prelude::*;

use crate::errors;
use crate::errors::{ErrorKind, IoError};
use crate::text;
use crate::text::{push_decimal, push_hex, push_text, str_chars, text_of};

verus! {

/// A character as it stands inside a JSON string.
pub open spec fn escaped_char(c: char) -> Seq<char> {
    if c == '"' {
        seq!['\\', '"']
    } else if c == '\\' {
        seq!['\\', '\\']
    } else if c == '\n' {
        seq!['\\', 'n']
    } else if c == '\r' {
        seq!['\\', 'r']
    } else if c == '\t' {
        seq!['\\', 't']
    } else if c as u32 <= 0x1f {
        seq!['\\', 'u'] + text::hex_digits(c as nat, 4)
    } else {
        seq![c]
    }
}

/// A text as it stands inside a JSON string.
pub open spec fn escaped(value: Seq<char>) -> Seq<char>
    decreases value.len(),
{
    if value.len() == 0 {
        Seq::empty()
    } else {
        escaped(value.drop_last()) + escaped_char(value.last())
    }
}

fn push_escaped(out: &mut String, c: char)
    ensures
        final(out)@ == old(out)@ + escaped_char(c),
{
    if c == '"' {
        out.push('\\');
        out.push('"');
    } else if c == '\\' {
        out.push('\\');
        out.push('\\');
    } else if c == '\n' {
        out.push('\\');
        out.push('n');
    } else if c == '\r' {
        out.push('\\');
        out.push('r');
    } else if c == '\t' {
        out.push('\\');
        out.push('t');
    } else if c as u32 <= 0x1f {
        out.push('\\');
        out.push('u');
        push_hex(out, c as u32 as u64, 4);
    } else {
        out.push(c);
    }
    assert(out@ =~= old(out)@ + escaped_char(c));
}

pub fn json_escape(value: &str) -> (out: String)
    ensures
        out@ == escaped(value@),
{
    let chars = str_chars(value);
    let mut out = String::new();
    let mut i: usize = 0;
    while i < chars.len()
        invariant
            i <= chars@.len(),
            chars@ == value@,
            out@ == escaped(value@.subrange(0, i as int)),
        decreases chars@.len() - i,
    {
        proof {
            let next = value@.subrange(0, i + 1);
            assert(next.drop_last() =~= value@.subrange(0, i as int));
        }
        push_escaped(&mut out, chars[i]);
        i += 1;
    }
    assert(value@.subrange(0, i as int) =~= value@);
    out
}

/// A line of the log, its newline included.
pub open spec fn log_line(timestamp_ms: u64, pid: u32, event: Seq<char>, detail: Seq<char>) -> Seq<
    char,
> {
    "{\"timestamp_ms\":"@ + text::decimal(timestamp_ms as nat) + ",\"pid\":"@ + text::decimal(
        pid as nat,
    ) + ",\"event\":\""@ + escaped(event) + "\",\"detail\":\""@ + escaped(detail) + "\"}\n"@
}

pub fn json_line(timestamp_ms: u64, pid: u32, event: &str, detail: &str) -> (line: String)
    ensures
        line@ == log_line(timestamp_ms, pid, event@, detail@),
{
    let mut line = text_of("{\"timestamp_ms\":");
    push_decimal(&mut line, timestamp_ms);
    push_text(&mut line, ",\"pid\":");
    push_decimal(&mut line, pid as u64);
    push_text(&mut line, ",\"event\":\"");
    push_text(&mut line, json_escape(event).as_str());
    push_text(&mut line, "\",\"detail\":\"");
    push_text(&mut line, json_escape(detail).as_str());
    push_text(&mut line, "\"}\n");
    line
}

// ---- the writer ----

/// What is recorded: when, by which process, the event and its detail.
pub struct Entry {
    pub timestamp_ms: u64,
    pub pid: u32,
    pub event: Seq<char>,
    pub detail: Seq<char>,
}

pub open spec fn line_of(entry: Entry) -> Seq<char> {
    log_line(entry.timestamp_ms, entry.pid, entry.event, entry.detail)
}

/// A writer as a value: whether lines can be queued for its worker, whether the worker is still to
/// be waited for, and the lines that were queued for it.
pub struct WriterState {
    pub takes_lines: bool,
    pub has_worker: bool,
    pub queued: Seq<Seq<char>>,
}

/// A writer whose worker was started.
pub open spec fn started() -> WriterState {
    WriterState { takes_lines: true, has_worker: true, queued: Seq::empty() }
}

/// A writer that has queued one more line, if it still takes lines.
pub open spec fn with_record(writer: WriterState, entry: Entry) -> WriterState {
    if writer.takes_lines {
        WriterState { queued: writer.queued.push(line_of(entry)), ..writer }
    } else {
        writer
    }
}

/// A writer whose queue was ended and emptied.
pub open spec fn ended() -> WriterState {
    WriterState { takes_lines: false, has_worker: false, queued: Seq::empty() }
}

/// A writer of the log. Its worker writes the lines that are queued, one after the other.
pub struct AuditWriter {
    sender: bool,
    worker: bool,
    queued: Ghost<Seq<Seq<char>>>,
}

impl View for AuditWriter {
    type V = WriterState;

    closed spec fn view(&self) -> WriterState {
        WriterState { takes_lines: self.sender, has_worker: self.worker, queued: self.queued@ }
    }
}

impl AuditWriter {
    /// The writer whose worker was started.
    pub fn start() -> (writer: Self)
        ensures
            writer@ == started(),
    {
        AuditWriter { sender: true, worker: true, queued: Ghost(Seq::empty()) }
    }

    /// Queues a line for the worker, and hands it out.
    pub fn record(&mut self, timestamp_ms: u64, pid: u32, event: &str, detail: &str) -> (result:
        Result<String, IoError>)
        ensures
            ({
                let entry = Entry { timestamp_ms, pid, event: event@, detail: detail@ };
                &&& final(self)@ == with_record(old(self)@, entry)
                &&& match result {
                    Ok(line) => old(self)@.takes_lines && line@ == line_of(entry),
                    Err(error) => !old(self)@.takes_lines && errors::fails_with(
                        error,
                        ErrorKind::BrokenPipe,
                        "audit writer stopped"@,
                    ),
                }
            }),
    {
        if !self.sender {
            return Err(IoError::new(ErrorKind::BrokenPipe, "audit writer stopped"));
        }
        let line = json_line(timestamp_ms, pid, event, detail);
        self.queued = Ghost(self.queued@.push(line@));
        Ok(line)
    }

    /// Ends the queue, and says whether the worker is to be waited for, until it has written what
    /// was queued: once, and never again.
    pub fn flush(&mut self) -> (join: bool)
        ensures
            join == old(self)@.has_worker,
            final(self)@ == ended(),
    {
        let join = self.worker;
        self.sender = false;
        self.worker = false;
        self.queued = Ghost(Seq::empty());
        join
    }
}

// ---- the log ----

/// The log as a value: the lines that were given to workers which have been waited for, and those
/// that are queued for the present worker, where there is one.
pub struct LogState {
    pub given: Seq<Seq<char>>,
    pub queued: Option<Seq<Seq<char>>>,
}

/// The log after a line was recorded. Where no worker runs, one is started for it.
pub open spec fn recorded(log: LogState, entry: Entry) -> LogState {
    LogState {
        queued: Some(
            match log.queued {
                Some(lines) => lines.push(line_of(entry)),
                None => seq![line_of(entry)],
            },
        ),
        ..log
    }
}

/// The log after a series of records.
pub open spec fn all_recorded(log: LogState, entries: Seq<Entry>) -> LogState
    decreases entries.len(),
{
    if entries.len() == 0 {
        log
    } else {
        recorded(all_recorded(log, entries.drop_last()), entries.last())
    }
}

/// The log after its worker was waited for.
pub open spec fn flushed(log: LogState) -> LogState {
    match log.queued {
        Some(lines) => LogState { given: log.given + lines, queued: None },
        None => log,
    }
}

/// The log of a process, over all the workers that it starts one after the other.
pub struct AuditLog {
    writer: Option<AuditWriter>,
    given: Ghost<Seq<Seq<char>>>,
}

impl View for AuditLog {
    type V = LogState;

    closed spec fn view(&self) -> LogState {
        LogState {
            given: self.given@,
            queued: match self.writer {
                Some(writer) => Some(writer@.queued),
                None => None,
            },
        }
    }
}

impl AuditLog {
    /// The type's invariant: a writer that is kept has not been flushed.
    pub closed spec fn well_formed(self) -> bool {
        self.writer matches Some(writer) ==> writer@.takes_lines && writer@.has_worker
    }

    pub fn new() -> (log: AuditLog)
        ensures
            log.well_formed(),
            log@ == (LogState { given: Seq::empty(), queued: None }),
    {
        AuditLog { writer: None, given: Ghost(Seq::empty()) }
    }

    /// Whether a worker has to be started before a line can be recorded.
    pub fn needs_worker(&self) -> (needs: bool)
        ensures
            needs == (self@.queued is None),
    {
        self.writer.is_none()
    }

    /// Records a line, and hands out what is to be sent to the worker. Where none runs, `can_start`
    /// says whether one could be started; if not, nothing is recorded.
    pub fn record(
        &mut self,
        can_start: bool,
        timestamp_ms: u64,
        pid: u32,
        event: &str,
        detail: &str,
    ) -> (line: Option<String>)
        requires
            old(self).well_formed(),
        ensures
            final(self).well_formed(),
            ({
                let entry = Entry { timestamp_ms, pid, event: event@, detail: detail@ };
                match line {
                    Some(line) => (old(self)@.queued is Some || can_start) && line@ == line_of(
                        entry,
                    ) && final(self)@ == recorded(old(self)@, entry),
                    None => old(self)@.queued is None && !can_start && final(self)@ == old(self)@,
                }
            }),
    {
        let mut writer = match self.writer.take() {
            Some(writer) => writer,
            None => {
                if !can_start {
                    return None;
                }
                AuditWriter::start()
            },
        };
        let line = writer.record(timestamp_ms, pid, event, detail);
        self.writer = Some(writer);
        proof {
            let entry = Entry { timestamp_ms, pid, event: event@, detail: detail@ };
            if old(self)@.queued is None {
                assert(self@.queued->0 =~= seq![line_of(entry)]);
            }
        }
        match line {
            Ok(line) => Some(line),
            Err(_) => None,
        }
    }

    /// Ends the queue of the present worker, and says whether there is one to be waited for.
    pub fn flush(&mut self) -> (join: bool)
        requires
            old(self).well_formed(),
        ensures
            final(self).well_formed(),
            join == (old(self)@.queued is Some),
            final(self)@ == flushed(old(self)@),
    {
        match self.writer.take() {
            Some(writer) => {
                let mut writer = writer;
                self.given = Ghost(self.given@ + writer@.queued);
                writer.flush()
            },
            None => false,
        }
    }
}

/// What flushing comes to, by how the worker ended, where there was one.
pub fn flush_outcome(joined: Option<Result<(), IoError>>) -> (result: Result<(), IoError>)
    ensures
        match joined {
            Some(outcome) => result == outcome,
            None => result matches Err(error) && errors::fails_with(
                error,
                ErrorKind::Other,
                "file operation audit worker panicked"@,
            ),
        },
{
    match joined {
        Some(outcome) => outcome,
        None => Err(IoError::new(ErrorKind::Other, "file operation audit worker panicked")),
    }
}

/// The lines of a series of records.
pub open spec fn lines_of(entries: Seq<Entry>) -> Seq<Seq<char>> {
    entries.map_values(|entry: Entry| line_of(entry))
}

/// After a flush, the queue holds exactly the lines of what is recorded, in their order. The next
/// flush gives them to the log behind what it was given before, and leaves nothing queued; one
/// more flush adds nothing.
pub proof fn law_a_flush_gives_what_was_recorded(log: LogState, entries: Seq<Entry>)
    requires
        log.queued is None,
    ensures
        entries.len() > 0 ==> all_recorded(log, entries).queued == Some(lines_of(entries)),
        all_recorded(log, entries).given == log.given,
        flushed(all_recorded(log, entries)) == (LogState {
            given: log.given + lines_of(entries),
            queued: None,
        }),
        flushed(flushed(all_recorded(log, entries))) == flushed(all_recorded(log, entries)),
    decreases entries.len(),
{
    if entries.len() > 0 {
        let before = entries.drop_last();
        law_a_flush_gives_what_was_recorded(log, before);
        assert(lines_of(entries) =~= lines_of(before).push(line_of(entries.last())));
        if before.len() == 0 {
            assert(all_recorded(log, before) == log);
            assert(lines_of(entries) =~= seq![line_of(entries.last())]);
        }
    } else {
        assert(log.given + lines_of(entries) =~= log.given);
    }
}

/// A series of records goes on across a flush: what is recorded after it is given to the log
/// behind what was recorded before.
pub proof fn law_records_go_on_after_a_flush(log: LogState, first: Seq<Entry>, later: Seq<Entry>)
    requires
        log.queued is None,
    ensures
        flushed(all_recorded(flushed(all_recorded(log, first)), later)).given == log.given
            + lines_of(first) + lines_of(later),
{
    law_a_flush_gives_what_was_recorded(log, first);
    law_a_flush_gives_what_was_recorded(flushed(all_recorded(log, first)), later);
}

/// Escaping leaves no control character below space, so that an entry stays on its line.
pub proof fn law_escaped_text_stays_on_one_line(value: Seq<char>, i: int)
    requires
        0 <= i < escaped(value).len(),
    ensures
        escaped(value)[i] as u32 > 0x1f,
    decreases value.len(),
{
    let before = escaped(value.drop_last());
    if i < before.len() {
        law_escaped_text_stays_on_one_line(value.drop_last(), i);
    } else {
        let c = value.last();
        if c as u32 <= 0x1f && c != '\n' && c != '\r' && c != '\t' {
            lemma_hex_is_printable(c as nat, 4);
            let digits = text::hex_digits(c as nat, 4);
            let at = i - before.len();
            assert(escaped_char(c)[at] == if at < 2 {
                seq!['\\', 'u'][at]
            } else {
                digits[at - 2]
            });
        }
    }
}

proof fn lemma_hex_is_printable(n: nat, width: nat)
    ensures
        text::hex_digits(n, width).len() == width,
        forall|i: int| 0 <= i < width ==> #[trigger] text::hex_digits(n, width)[i] as u32 > 0x1f,
    decreases width,
{
    if width > 0 {
        lemma_hex_is_printable(n / 16, (width - 1) as nat);
    }
}

/// A line bears its time, its process, its event and its detail, in this order, and ends the line; a
/// recorded line is handed out and waits behind the others.
pub proof fn law_a_line_bears_what_was_recorded(
    log: &mut AuditLog,
    can_start: bool,
    timestamp_ms: u64,
    pid: u32,
    event: &str,
    detail: &str,
    shown_event: String,
    shown_detail: String,
    expected: String,
    line: Option<String>,
)
    requires
        old(log).well_formed(),
        call_ensures(json_escape, (event,), shown_event),
        call_ensures(json_escape, (detail,), shown_detail),
        call_ensures(json_line, (timestamp_ms, pid, event, detail), expected),
        call_ensures(AuditLog::record, (log, can_start, timestamp_ms, pid, event, detail), line),
    ensures
        expected@ == "{\"timestamp_ms\":"@ + text::decimal(timestamp_ms as nat) + ",\"pid\":"@
            + text::decimal(pid as nat) + ",\"event\":\""@ + shown_event@ + "\",\"detail\":\""@
            + shown_detail@ + "\"}\n"@,
        line is None <==> old(log)@.queued is None && !can_start,
        line matches Some(text) ==> {
            &&& text@ == expected@
            &&& final(log)@.given == old(log)@.given
            &&& final(log)@.queued is Some
            &&& final(log)@.queued->0 == match old(log)@.queued {
                Some(lines) => lines.push(expected@),
                None => seq![expected@],
            }
        },
        line is None ==> final(log)@ == old(log)@,
{
}

/// Flushing gives everything that waits to the file, in its order, and leaves nothing waiting.
pub proof fn law_a_flush_leaves_nothing_waiting(log: &mut AuditLog, join: bool)
    requires
        old(log).well_formed(),
        call_ensures(AuditLog::flush, (log,), join),
    ensures
        join <==> old(log)@.queued is Some,
        final(log)@.queued is None,
        old(log)@.queued is None ==> final(log)@.given == old(log)@.given,
        old(log)@.queued matches Some(lines) ==> final(log)@.given == old(log)@.given + lines,
{
}

/// One more character of a text is escaped by itself: quotes and backslashes behind a backslash, line
/// ends and tabs by their letters, other control characters by their number, and all others not.
pub proof fn law_characters_are_escaped_one_by_one(
    value: &str,
    c: char,
    more: &str,
    before: String,
    after: String,
)
    requires
        more@ == value@.push(c),
        call_ensures(json_escape, (value,), before),
        call_ensures(json_escape, (more,), after),
    ensures
        value@.len() == 0 ==> before@.len() == 0,
        c == '"' || c == '\\' ==> after@ == before@.push('\\').push(c),
        c == '\n' ==> after@ == before@.push('\\').push('n'),
        c == '\r' ==> after@ == before@.push('\\').push('r'),
        c == '\t' ==> after@ == before@.push('\\').push('t'),
        c as u32 > 0x1f && c != '"' && c != '\\' ==> after@ == before@.push(c),
        c as u32 <= 0x1f ==> before@.push('\\').is_prefix_of(after@) && after@.len() >= before@.len()
            + 2,
{
    assert(more@.drop_last() =~= value@);
    if c as u32 <= 0x1f {
        assert(after@.subrange(0, before@.len() as int + 1) =~= before@.push('\\'));
    }
}

} // verus!
