//! Searching with Everything: the settings, the search texts, the conversation with its window.
use vstd::prelude::*;

use crate::text;
use crate::text::{
    chars_eq, decode_lossy, lower_chars, push_decimal, push_text, str_chars, string_from_chars,
    text_of, texts_equal, trim_text,
};
use crate::winpath;
use crate::winpath::{path_eq, units_copy_all};

pub mod installed;
pub mod reply;

verus! {

#[derive(Debug, Clone, PartialEq, Eq)]
pub struct PlatformEverythingConfig {
    pub executable_path: Vec<u16>,
    pub instance_name: String,
    pub allow_start: bool,
}

#[derive(Debug, Clone, PartialEq, Eq)]
pub struct EverythingInstallation {
    pub executable_path: Vec<u16>,
    pub instance_name: String,
    pub running: bool,
}

#[derive(Debug, Clone, Copy, PartialEq, Eq, Structural)]
pub struct EverythingVersion {
    pub major: u32,
    pub minor: u32,
    pub revision: u32,
    pub build: u32,
}

impl EverythingVersion {
    pub open spec fn shown(self) -> Seq<char> {
        text::decimal(self.major as nat) + "."@ + text::decimal(self.minor as nat) + "."@
            + text::decimal(self.revision as nat) + "."@ + text::decimal(self.build as nat)
    }

    pub fn to_text(&self) -> (shown: String)
        ensures
            shown@ == self.shown(),
    {
        let mut shown = String::new();
        push_decimal(&mut shown, self.major as u64);
        assert(shown@ =~= text::decimal(self.major as nat));
        push_text(&mut shown, ".");
        push_decimal(&mut shown, self.minor as u64);
        push_text(&mut shown, ".");
        push_decimal(&mut shown, self.revision as u64);
        push_text(&mut shown, ".");
        push_decimal(&mut shown, self.build as u64);
        shown
    }
}

#[derive(Debug, Clone, PartialEq, Eq)]
pub struct EverythingStatus {
    pub version: EverythingVersion,
    pub instance_name: String,
    pub database_loaded: bool,
    pub folder_size_indexed: bool,
}

#[derive(Debug, Clone, Copy, PartialEq, Eq, Structural)]
pub enum EverythingSort {
    NameAscending,
    NameDescending,
    PathAscending,
    PathDescending,
    SizeAscending,
    SizeDescending,
    ModifiedAscending,
    ModifiedDescending,
}

impl Default for EverythingSort {
    fn default() -> (sort: EverythingSort)
        ensures
            sort == EverythingSort::NameAscending,
    {
        EverythingSort::NameAscending
    }
}

impl EverythingSort {
    pub open spec fn number(self) -> u32 {
        match self {
            EverythingSort::NameAscending => 1,
            EverythingSort::NameDescending => 2,
            EverythingSort::PathAscending => 3,
            EverythingSort::PathDescending => 4,
            EverythingSort::SizeAscending => 5,
            EverythingSort::SizeDescending => 6,
            EverythingSort::ModifiedAscending => 13,
            EverythingSort::ModifiedDescending => 14,
        }
    }

    /// The number of the order in a query.
    pub fn ipc(self) -> (number: u32)
        ensures
            number == self.number(),
    {
        match self {
            EverythingSort::NameAscending => 1,
            EverythingSort::NameDescending => 2,
            EverythingSort::PathAscending => 3,
            EverythingSort::PathDescending => 4,
            EverythingSort::SizeAscending => 5,
            EverythingSort::SizeDescending => 6,
            EverythingSort::ModifiedAscending => 13,
            EverythingSort::ModifiedDescending => 14,
        }
    }
}

#[derive(Debug, Clone, PartialEq, Eq)]
pub struct EverythingSearchRequest {
    pub query: String,
    pub scope: Option<Vec<u16>>,
    pub offset: u32,
    pub max_results: u32,
    pub sort: EverythingSort,
}

impl EverythingSearchRequest {
    pub fn new(query: String, scope: Option<Vec<u16>>) -> (request: EverythingSearchRequest)
        ensures
            request == (EverythingSearchRequest {
                query,
                scope,
                offset: 0,
                max_results: 256,
                sort: EverythingSort::NameAscending,
            }),
    {
        EverythingSearchRequest {
            query,
            scope,
            offset: 0,
            max_results: 256,
            sort: EverythingSort::NameAscending,
        }
    }
}

#[derive(Debug, Clone, PartialEq, Eq)]
pub struct EverythingSearchPage {
    pub total: u32,
    pub offset: u32,
    pub items: Vec<EverythingSearchItem>,
}

/// A hit. The time is given in nanoseconds from the beginning of 1970.
#[derive(Debug, Clone, PartialEq, Eq)]
pub struct EverythingSearchItem {
    pub path: Vec<u16>,
    pub name: Vec<u16>,
    pub parent: Vec<u16>,
    pub size: Option<u64>,
    pub modified: Option<u64>,
    pub is_directory: bool,
}

#[derive(Debug, Clone, Copy, PartialEq, Eq, Structural)]
pub enum EverythingFolderSize {
    Indexed(u64),
    NotIndexed,
}

#[derive(Debug, Clone, PartialEq, Eq)]
pub enum EverythingError {
    NotConfigured,
    InvalidExecutable(Vec<u16>),
    NotRunning(String),
    Timeout,
    UnsupportedVersion(EverythingVersion),
    UnsupportedArchitecture,
    DatabaseNotLoaded,
    QueryRejected,
    Protocol(String),
    StartFailed(String),
    Windows(u32),
}

impl EverythingError {
    pub open spec fn shown(self) -> Seq<char> {
        match self {
            EverythingError::NotConfigured => "Everything is not configured"@,
            EverythingError::InvalidExecutable(path) => "invalid Everything executable: "@
                + text::utf16_lossy(path@),
            EverythingError::NotRunning(instance) => "Everything instance is not running: "@
                + instance@,
            EverythingError::Timeout => "Everything IPC timed out"@,
            EverythingError::UnsupportedVersion(version) => "unsupported Everything version: "@
                + version.shown(),
            EverythingError::UnsupportedArchitecture => "Everything x64 is required"@,
            EverythingError::DatabaseNotLoaded => "Everything database is not loaded"@,
            EverythingError::QueryRejected => "Everything rejected the query"@,
            EverythingError::Protocol(message) => "invalid Everything response: "@ + message@,
            EverythingError::StartFailed(message) => "failed to start Everything: "@ + message@,
            EverythingError::Windows(code) => "Windows error "@ + text::decimal(code as nat),
        }
    }

    pub fn to_text(&self) -> (shown: String)
        ensures
            shown@ == self.shown(),
    {
        match self {
            EverythingError::NotConfigured => text_of("Everything is not configured"),
            EverythingError::InvalidExecutable(path) => {
                let mut shown = text_of("invalid Everything executable: ");
                let chars = decode_lossy(path.as_slice());
                push_text(&mut shown, string_from_chars(chars.as_slice()).as_str());
                shown
            },
            EverythingError::NotRunning(instance) => {
                let mut shown = text_of("Everything instance is not running: ");
                push_text(&mut shown, instance.as_str());
                shown
            },
            EverythingError::Timeout => text_of("Everything IPC timed out"),
            EverythingError::UnsupportedVersion(version) => {
                let mut shown = text_of("unsupported Everything version: ");
                push_text(&mut shown, version.to_text().as_str());
                shown
            },
            EverythingError::UnsupportedArchitecture => text_of("Everything x64 is required"),
            EverythingError::DatabaseNotLoaded => text_of("Everything database is not loaded"),
            EverythingError::QueryRejected => text_of("Everything rejected the query"),
            EverythingError::Protocol(message) => {
                let mut shown = text_of("invalid Everything response: ");
                push_text(&mut shown, message.as_str());
                shown
            },
            EverythingError::StartFailed(message) => {
                let mut shown = text_of("failed to start Everything: ");
                push_text(&mut shown, message.as_str());
                shown
            },
            EverythingError::Windows(code) => {
                let mut shown = text_of("Windows error ");
                push_decimal(&mut shown, *code as u64);
                shown
            },
        }
    }
}

// ---- search texts ----

/// Whether Unicode counts a character among the letters and the numbers.
pub uninterp spec fn alphanumeric(c: char) -> bool;

/// `char::is_alphanumeric`: a function of the character alone. Of the ASCII characters the letters
/// and the digits have the property, and no others; which further characters have it is left to
/// Unicode.
#[verifier::external_body]
fn char_is_alphanumeric(c: char) -> (yes: bool)
    ensures
        yes == alphanumeric(c),
        c as u32 <= 0x7f ==> (yes <==> (0x30 <= c as u32 <= 0x39 || 0x41 <= c as u32 <= 0x5a || 0x61
            <= c as u32 <= 0x7a)),
{
    c.is_alphanumeric()
}

/// Marks that stand for themselves in the argument of a search function.
pub open spec fn plain_mark(c: char) -> bool {
    c == '\\' || c == ':' || c == '.' || c == '_' || c == '-'
}

/// A character in the argument of a search function, given whether it is a letter or a number.
pub open spec fn encoded_char(c: char, is_alphanumeric: bool) -> Seq<char> {
    if is_alphanumeric || plain_mark(c) {
        seq![c]
    } else {
        seq!['#'] + text::decimal(c as nat) + seq![':']
    }
}

/// The text as the argument of a search function.
pub open spec fn encoded_argument(value: Seq<char>) -> Seq<char>
    decreases value.len(),
{
    if value.len() == 0 {
        Seq::empty()
    } else {
        encoded_argument(value.drop_last()) + encoded_char(value.last(), alphanumeric(value.last()))
    }
}

/// Appends a character as it stands in the argument of a search function.
pub fn push_encoded(encoded: &mut String, c: char, is_alphanumeric: bool)
    ensures
        final(encoded)@ == old(encoded)@ + encoded_char(c, is_alphanumeric),
{
    if is_alphanumeric || c == '\\' || c == ':' || c == '.' || c == '_' || c == '-' {
        encoded.push(c);
    } else {
        encoded.push('#');
        push_decimal(encoded, c as u32 as u64);
        encoded.push(':');
    }
    assert(encoded@ =~= old(encoded)@ + encoded_char(c, is_alphanumeric));
}

pub fn encode_function_argument(value: &str) -> (encoded: String)
    ensures
        encoded@ == encoded_argument(value@),
{
    let chars = str_chars(value);
    let mut encoded = String::new();
    let mut i: usize = 0;
    while i < chars.len()
        invariant
            i <= chars@.len(),
            chars@ == value@,
            encoded@ == encoded_argument(value@.subrange(0, i as int)),
        decreases chars@.len() - i,
    {
        assert(value@.subrange(0, i + 1).drop_last() =~= value@.subrange(0, i as int));
        let is_alphanumeric = char_is_alphanumeric(chars[i]);
        push_encoded(&mut encoded, chars[i], is_alphanumeric);
        i += 1;
    }
    assert(value@.subrange(0, i as int) =~= value@);
    encoded
}

/// The search text for a query within a scope, whose argument is encoded already.
pub open spec fn scoped_query(scope: Seq<char>, query: Seq<char>) -> Seq<char> {
    if query.len() == 0 {
        "ancestor:"@ + scope
    } else {
        "<"@ + ("ancestor:"@ + scope) + "> "@ + query
    }
}

/// The search text for a query: it is trimmed, and a scope is put before it.
pub open spec fn composed_search(scope: Option<Seq<u16>>, query: Seq<char>) -> Seq<char> {
    match scope {
        Some(path) => scoped_query(
            encoded_argument(text::utf16_lossy(path)),
            text::trimmed(query),
        ),
        None => text::trimmed(query),
    }
}

/// Puts an encoded scope before a trimmed query.
pub fn scope_query(scope: &str, query: &str) -> (search: String)
    ensures
        search@ == scoped_query(scope@, query@),
{
    let mut ancestor = text_of("ancestor:");
    push_text(&mut ancestor, scope);
    if query.is_empty() {
        ancestor
    } else {
        let mut search = text_of("<");
        push_text(&mut search, ancestor.as_str());
        push_text(&mut search, "> ");
        push_text(&mut search, query);
        search
    }
}

pub open spec fn slice_view(path: Option<&[u16]>) -> Option<Seq<u16>> {
    match path {
        Some(path) => Some(path@),
        None => None,
    }
}

pub fn compose_search(scope: Option<&[u16]>, user_query: &str) -> (search: String)
    ensures
        search@ == composed_search(slice_view(scope), user_query@),
{
    let query = trim_text(user_query);
    match scope {
        Some(path) => {
            let chars = decode_lossy(path);
            let shown = string_from_chars(chars.as_slice());
            let encoded = encode_function_argument(shown.as_str());
            scope_query(encoded.as_str(), query.as_str())
        },
        None => query,
    }
}

/// A text with its quotes doubled.
pub open spec fn quotes_doubled(value: Seq<char>) -> Seq<char>
    decreases value.len(),
{
    if value.len() == 0 {
        Seq::empty()
    } else if value.last() == '"' {
        quotes_doubled(value.drop_last()) + seq!['"', '"']
    } else {
        quotes_doubled(value.drop_last()).push(value.last())
    }
}

pub fn quote(value: &str) -> (quoted: String)
    ensures
        quoted@ == quotes_doubled(value@),
{
    let chars = str_chars(value);
    let mut quoted = String::new();
    let mut i: usize = 0;
    while i < chars.len()
        invariant
            i <= chars@.len(),
            chars@ == value@,
            quoted@ == quotes_doubled(value@.subrange(0, i as int)),
        decreases chars@.len() - i,
    {
        assert(value@.subrange(0, i + 1).drop_last() =~= value@.subrange(0, i as int));
        let ghost before = quoted@;
        if chars[i] == '"' {
            quoted.push('"');
        }
        quoted.push(chars[i]);
        assert(quoted@ =~= quotes_doubled(value@.subrange(0, i + 1)));
        i += 1;
    }
    assert(value@.subrange(0, i as int) =~= value@);
    quoted
}

// ---- instances ----

/// The window class of an instance; the unnamed one has the bare name.
pub open spec fn class_of(instance: Seq<char>) -> Seq<char> {
    if instance.len() == 0 {
        "EVERYTHING_TASKBAR_NOTIFICATION"@
    } else {
        "EVERYTHING_TASKBAR_NOTIFICATION"@ + "_("@ + instance + ")"@
    }
}

pub fn instance_class(instance: &str) -> (class: String)
    ensures
        class@ == class_of(instance@),
{
    let mut class = text_of("EVERYTHING_TASKBAR_NOTIFICATION");
    if !instance.is_empty() {
        push_text(&mut class, "_(");
        push_text(&mut class, instance);
        push_text(&mut class, ")");
    }
    class
}

/// The start of the window class of a named instance.
pub open spec fn named_class_start() -> Seq<char> {
    "EVERYTHING_TASKBAR_NOTIFICATION_("@
}

/// The instance whose window has this class.
pub open spec fn instance_of(class: Seq<char>) -> Option<Seq<char>> {
    let start = named_class_start();
    if class == "EVERYTHING_TASKBAR_NOTIFICATION"@ {
        Some(Seq::empty())
    } else if class.len() > start.len() && class.subrange(0, start.len() as int) == start
        && class.last() == ')' {
        Some(class.subrange(start.len() as int, class.len() - 1))
    } else {
        None
    }
}

pub open spec fn text_view(value: Option<String>) -> Option<Seq<char>> {
    match value {
        Some(text) => Some(text@),
        None => None,
    }
}

pub fn class_instance(class: &str) -> (instance: Option<String>)
    ensures
        text_view(instance) == instance_of(class@),
{
    if texts_equal(class, "EVERYTHING_TASKBAR_NOTIFICATION") {
        let instance = String::new();
        assert(instance@ =~= Seq::empty());
        return Some(instance);
    }
    let chars = str_chars(class);
    let start = str_chars("EVERYTHING_TASKBAR_NOTIFICATION_(");
    let n: usize = chars.len();
    let m: usize = start.len();
    if n <= m {
        return None;
    }
    let head = vstd::slice::slice_subrange(chars.as_slice(), 0, m);
    if chars_eq(head, start.as_slice()) && chars[n - 1] == ')' {
        let name = vstd::slice::slice_subrange(chars.as_slice(), m, n - 1);
        Some(string_from_chars(name))
    } else {
        None
    }
}

pub open spec fn texts(values: Seq<String>) -> Seq<Seq<char>> {
    Seq::new(values.len(), |i: int| values[i]@)
}

/// Adds the instance of a window, once.
pub fn add_running_instance(running: &mut Vec<String>, class: &str)
    ensures
        texts(final(running)@) == match instance_of(class@) {
            Some(instance) if !texts(old(running)@).contains(instance) => texts(
                old(running)@,
            ).push(instance),
            _ => texts(old(running)@),
        },
{
    let instance = match class_instance(class) {
        Some(instance) => instance,
        None => {
            return ;
        },
    };
    let n: usize = running.len();
    let mut i: usize = 0;
    while i < n
        invariant
            n == running@.len(),
            *running == *old(running),
            Some(instance@) == instance_of(class@),
            i <= n,
            forall|j: int| 0 <= j < i ==> #[trigger] texts(running@)[j] != instance@,
        decreases n - i,
    {
        assert(texts(running@)[i as int] == running@[i as int]@);
        if texts_equal(running[i].as_str(), instance.as_str()) {
            return ;
        }
        i += 1;
    }
    let ghost before = running@;
    let ghost name = instance@;
    running.push(instance);
    assert(texts(running@) =~= texts(before).push(name));
}

/// An installation as a mathematical value.
pub struct Installation {
    pub path: Seq<u16>,
    pub instance: Seq<char>,
    pub running: bool,
}

impl View for EverythingInstallation {
    type V = Installation;

    open spec fn view(&self) -> Installation {
        Installation {
            path: self.executable_path@,
            instance: self.instance_name@,
            running: self.running,
        }
    }
}

pub open spec fn installations(found: Seq<EverythingInstallation>) -> Seq<Installation> {
    Seq::new(found.len(), |i: int| found[i]@)
}

/// The instances have the same name, but for ASCII case.
pub open spec fn same_instance(a: Seq<char>, b: Seq<char>) -> bool {
    text::ascii_lower_text(a) == text::ascii_lower_text(b)
}

/// The first installation with that instance, or the length.
pub open spec fn instance_position(found: Seq<Installation>, instance: Seq<char>) -> int
    decreases found.len(),
{
    if found.len() == 0 || same_instance(found[0].instance, instance) {
        0
    } else {
        1 + instance_position(found.subrange(1, found.len() as int), instance)
    }
}

proof fn lemma_instance_position(found: Seq<Installation>, instance: Seq<char>, at: int)
    requires
        0 <= at <= found.len(),
        forall|i: int| 0 <= i < at ==> !same_instance((#[trigger] found[i]).instance, instance),
        at < found.len() ==> same_instance(found[at].instance, instance),
    ensures
        instance_position(found, instance) == at,
    decreases found.len(),
{
    if at > 0 {
        let rest = found.subrange(1, found.len() as int);
        assert(!same_instance(found[0].instance, instance));
        assert forall|i: int| 0 <= i < at - 1 implies !same_instance(
            (#[trigger] rest[i]).instance,
            instance,
        ) by {
            assert(!same_instance(found[i + 1].instance, instance));
        }
        lemma_instance_position(rest, instance, at - 1);
    }
}

/// The installations once an instance is known to run: it is marked, or added without a path.
pub open spec fn with_running(found: Seq<Installation>, instance: Seq<char>) -> Seq<Installation> {
    let at = instance_position(found, instance);
    if at < found.len() {
        found.update(at, Installation { running: true, ..found[at] })
    } else {
        found.push(Installation { path: Seq::empty(), instance, running: true })
    }
}

/// The installations once a program is known to exist: it is added unless it is there.
pub open spec fn with_program(found: Seq<Installation>, path: Seq<u16>) -> Seq<Installation> {
    if exists|i: int| 0 <= i < found.len() && winpath::same_path(#[trigger] found[i].path, path) {
        found
    } else {
        found.push(Installation { path, instance: Seq::empty(), running: false })
    }
}

pub open spec fn with_all_running(found: Seq<Installation>, running: Seq<Seq<char>>) -> Seq<
    Installation,
>
    decreases running.len(),
{
    if running.len() == 0 {
        found
    } else {
        with_running(with_all_running(found, running.drop_last()), running.last())
    }
}

pub open spec fn with_all_programs(found: Seq<Installation>, programs: Seq<Seq<u16>>) -> Seq<
    Installation,
>
    decreases programs.len(),
{
    if programs.len() == 0 {
        found
    } else {
        with_program(with_all_programs(found, programs.drop_last()), programs.last())
    }
}

fn names_equal(a: &str, b: &str) -> (equal: bool)
    ensures
        equal == same_instance(a@, b@),
{
    let a_chars = str_chars(a);
    let b_chars = str_chars(b);
    let a_lower = lower_chars(a_chars.as_slice());
    let b_lower = lower_chars(b_chars.as_slice());
    chars_eq(a_lower.as_slice(), b_lower.as_slice())
}

fn mark_running(found: &mut Vec<EverythingInstallation>, instance: &str)
    ensures
        installations(final(found)@) == with_running(installations(old(found)@), instance@),
{
    let n: usize = found.len();
    let mut i: usize = 0;
    while i < n && !names_equal(found[i].instance_name.as_str(), instance)
        invariant
            n == found@.len(),
            *found == *old(found),
            i <= n,
            forall|j: int|
                0 <= j < i ==> !same_instance(
                    (#[trigger] installations(found@)[j]).instance,
                    instance@,
                ),
        decreases n - i,
    {
        assert(installations(found@)[i as int] == found@[i as int]@);
        i += 1;
    }
    proof {
        if i < n {
            assert(installations(found@)[i as int] == found@[i as int]@);
        }
        lemma_instance_position(installations(found@), instance@, i as int);
    }
    let ghost before = installations(found@);
    if i < n {
        let marked = EverythingInstallation {
            executable_path: units_copy_all(found[i].executable_path.as_slice()),
            instance_name: text_of(found[i].instance_name.as_str()),
            running: true,
        };
        found.set(i, marked);
        assert(installations(found@) =~= with_running(before, instance@));
    } else {
        let path: Vec<u16> = Vec::new();
        assert(path@ =~= Seq::<u16>::empty());
        found.push(
            EverythingInstallation {
                executable_path: path,
                instance_name: text_of(instance),
                running: true,
            },
        );
        assert(installations(found@) =~= with_running(before, instance@));
    }
}

fn add_program(found: &mut Vec<EverythingInstallation>, path: &[u16])
    ensures
        installations(final(found)@) == with_program(installations(old(found)@), path@),
{
    let n: usize = found.len();
    let mut i: usize = 0;
    let ghost before = installations(found@);
    while i < n
        invariant
            n == found@.len(),
            *found == *old(found),
            before == installations(found@),
            i <= n,
            forall|j: int| 0 <= j < i ==> !winpath::same_path(#[trigger] before[j].path, path@),
        decreases n - i,
    {
        assert(before[i as int].path == found@[i as int].executable_path@);
        if path_eq(found[i].executable_path.as_slice(), path) {
            return ;
        }
        i += 1;
    }
    let name = String::new();
    assert(name@ =~= Seq::<char>::empty());
    found.push(
        EverythingInstallation {
            executable_path: units_copy_all(path),
            instance_name: name,
            running: false,
        },
    );
    assert(installations(found@) =~= with_program(before, path@));
}

// ---- the client ----

/// What to do next in order to learn the status.
#[derive(Debug)]
pub enum StatusStep {
    /// Send this command with this argument, and add the answer.
    Send { command: u32, argument: u32 },
    Done(EverythingStatus),
    Fail(EverythingError),
}

/// The version in the first four answers.
pub open spec fn version_in(replies: Seq<u64>) -> EverythingVersion {
    EverythingVersion {
        major: replies[0] as u32,
        minor: replies[1] as u32,
        revision: replies[2] as u32,
        build: replies[3] as u32,
    }
}

/// Versions from 1.5 on, below 2.
pub open spec fn supported(version: EverythingVersion) -> bool {
    version.major == 1 && version.minor >= 5
}

/// The answer to the question for the machine type that stands for x64.
pub const MACHINE_X64: u64 = 2;

/// A query that is ready to be sent.
#[derive(Debug)]
pub struct EverythingQuery {
    pub search: String,
    pub offset: u32,
    pub max_results: u32,
    pub sort: u32,
}

/// The largest page.
pub const MAX_RESULTS: u32 = 4096;

#[derive(Debug, Clone)]
pub struct EverythingClient {
    config: PlatformEverythingConfig,
}

/// The name of an instance can stand in a window class.
pub open spec fn valid_instance(name: Seq<char>) -> bool {
    !name.contains('\0') && !name.contains('(') && !name.contains(')')
}

/// The search for the folder with this path.
pub open spec fn folder_query(path: Seq<u16>) -> Seq<char> {
    "folder:wholepath:\""@ + quotes_doubled(text::utf16_lossy(path)) + "\""@
}

/// The paths agree but for ASCII case.
pub open spec fn equal_paths(left: Seq<u16>, right: Seq<u16>) -> bool {
    text::ascii_lower_text(text::utf16_lossy(left)) == text::ascii_lower_text(
        text::utf16_lossy(right),
    )
}

pub fn windows_path_eq(left: &[u16], right: &[u16]) -> (equal: bool)
    ensures
        equal == equal_paths(left@, right@),
{
    let left_text = decode_lossy(left);
    let right_text = decode_lossy(right);
    let left_lower = lower_chars(left_text.as_slice());
    let right_lower = lower_chars(right_text.as_slice());
    chars_eq(left_lower.as_slice(), right_lower.as_slice())
}

/// The size in the first item for the path.
pub open spec fn size_of_folder(items: Seq<EverythingSearchItem>, path: Seq<u16>) -> EverythingFolderSize
    decreases items.len(),
{
    if items.len() == 0 {
        EverythingFolderSize::NotIndexed
    } else if equal_paths(items[0].path@, path) {
        match items[0].size {
            Some(size) => EverythingFolderSize::Indexed(size),
            None => EverythingFolderSize::NotIndexed,
        }
    } else {
        size_of_folder(items.subrange(1, items.len() as int), path)
    }
}

impl EverythingClient {
    /// The settings of the client.
    pub closed spec fn settings(self) -> PlatformEverythingConfig {
        self.config
    }

    pub fn new(config: PlatformEverythingConfig) -> (result: Result<
        EverythingClient,
        EverythingError,
    >)
        ensures
            match result {
                Ok(client) => valid_instance(config.instance_name@) && client.settings() == config,
                Err(error) => !valid_instance(config.instance_name@) && error is NotConfigured,
            },
    {
        let chars = str_chars(config.instance_name.as_str());
        let mut i: usize = 0;
        while i < chars.len()
            invariant
                i <= chars@.len(),
                chars@ == config.instance_name@,
                forall|j: int|
                    0 <= j < i ==> chars@[j] != '\0' && chars@[j] != '(' && chars@[j] != ')',
            decreases chars@.len() - i,
        {
            if chars[i] == '\0' || chars[i] == '(' || chars[i] == ')' {
                assert(config.instance_name@.contains(chars@[i as int]));
                return Err(EverythingError::NotConfigured);
            }
            i += 1;
        }
        Ok(EverythingClient { config })
    }

    pub fn config(&self) -> (config: &PlatformEverythingConfig)
        ensures
            *config == self.settings(),
    {
        &self.config
    }

    /// All installations: those in the registry, marked where their instance runs, the other
    /// instances that run, and further programs that exist.
    pub fn discover(
        registered: Vec<EverythingInstallation>,
        running: &[String],
        programs: &[Vec<u16>],
    ) -> (found: Vec<EverythingInstallation>)
        ensures
            installations(found@) == with_all_programs(
                with_all_running(installations(registered@), texts(running@)),
                winpath::path_views(programs@),
            ),
    {
        let ghost start = installations(registered@);
        let mut found = registered;
        let n: usize = running.len();
        let mut i: usize = 0;
        assert(texts(running@).subrange(0, 0).len() == 0);
        while i < n
            invariant
                n == running@.len(),
                i <= n,
                installations(found@) == with_all_running(
                    start,
                    texts(running@).subrange(0, i as int),
                ),
            decreases n - i,
        {
            assert(texts(running@).subrange(0, i + 1).drop_last() =~= texts(running@).subrange(
                0,
                i as int,
            ));
            mark_running(&mut found, running[i].as_str());
            i += 1;
        }
        assert(texts(running@).subrange(0, i as int) =~= texts(running@));
        let ghost marked = installations(found@);
        let ghost paths = winpath::path_views(programs@);
        let m: usize = programs.len();
        let mut j: usize = 0;
        assert(paths.subrange(0, 0).len() == 0);
        while j < m
            invariant
                m == programs@.len(),
                paths == winpath::path_views(programs@),
                j <= m,
                installations(found@) == with_all_programs(marked, paths.subrange(0, j as int)),
            decreases m - j,
        {
            assert(paths.subrange(0, j + 1).drop_last() =~= paths.subrange(0, j as int));
            add_program(&mut found, programs[j].as_slice());
            j += 1;
        }
        assert(paths.subrange(0, j as int) =~= paths);
        found
    }

    /// What to do next in order to learn the status, given the answers so far.
    pub fn status(&self, replies: &[u64]) -> (step: StatusStep)
        ensures
            ({
                let n = replies@.len();
                if n < 4 {
                    step == (StatusStep::Send { command: n as u32, argument: 0 })
                } else if !supported(version_in(replies@)) {
                    step == StatusStep::Fail(
                        EverythingError::UnsupportedVersion(version_in(replies@)),
                    )
                } else if n == 4 {
                    step == (StatusStep::Send { command: 5, argument: 0 })
                } else if replies@[4] != MACHINE_X64 {
                    step == StatusStep::Fail(EverythingError::UnsupportedArchitecture)
                } else if n == 5 {
                    step == (StatusStep::Send { command: 401, argument: 0 })
                } else if n == 6 {
                    step == (StatusStep::Send { command: 411, argument: 2 })
                } else {
                    step matches StatusStep::Done(status) && status.version == version_in(replies@)
                        && status.instance_name@ == self.settings().instance_name@
                        && status.database_loaded == (replies@[5] != 0)
                        && status.folder_size_indexed == (replies@[6] != 0)
                }
            }),
    {
        let n: usize = replies.len();
        if n < 4 {
            return StatusStep::Send { command: n as u32, argument: 0 };
        }
        let version = EverythingVersion {
            major: #[verifier::truncate] (replies[0] as u32),
            minor: #[verifier::truncate] (replies[1] as u32),
            revision: #[verifier::truncate] (replies[2] as u32),
            build: #[verifier::truncate] (replies[3] as u32),
        };
        if version.major != 1 || version.minor < 5 {
            return StatusStep::Fail(EverythingError::UnsupportedVersion(version));
        }
        if n == 4 {
            return StatusStep::Send { command: 5, argument: 0 };
        }
        if replies[4] != MACHINE_X64 {
            return StatusStep::Fail(EverythingError::UnsupportedArchitecture);
        }
        if n == 5 {
            return StatusStep::Send { command: 401, argument: 0 };
        }
        if n == 6 {
            return StatusStep::Send { command: 411, argument: 2 };
        }
        StatusStep::Done(
            EverythingStatus {
                version,
                instance_name: text_of(self.config.instance_name.as_str()),
                database_loaded: replies[5] != 0,
                folder_size_indexed: replies[6] != 0,
            },
        )
    }

    /// The arguments with which Everything is started, given whether its program is a file.
    pub fn start(&self, is_file: bool) -> (result: Result<Vec<String>, EverythingError>)
        ensures
            match result {
                Ok(arguments) => self.settings().allow_start && is_file && texts(arguments@)
                    == if self.settings().instance_name@.len() > 0 {
                    seq!["-instance"@, self.settings().instance_name@, "-startup"@]
                } else {
                    seq!["-startup"@]
                },
                Err(EverythingError::StartFailed(message)) => !self.settings().allow_start
                    && message@ == "starting Everything is disabled"@,
                Err(EverythingError::InvalidExecutable(path)) => self.settings().allow_start
                    && !is_file && path@ == self.settings().executable_path@,
                Err(_) => false,
            },
    {
        if !self.config.allow_start {
            return Err(EverythingError::StartFailed(text_of("starting Everything is disabled")));
        }
        if !is_file {
            return Err(
                EverythingError::InvalidExecutable(
                    units_copy_all(self.config.executable_path.as_slice()),
                ),
            );
        }
        let mut arguments: Vec<String> = Vec::new();
        if !self.config.instance_name.as_str().is_empty() {
            arguments.push(text_of("-instance"));
            arguments.push(text_of(self.config.instance_name.as_str()));
        }
        arguments.push(text_of("-startup"));
        proof {
            let expected = if self.settings().instance_name@.len() > 0 {
                seq!["-instance"@, self.settings().instance_name@, "-startup"@]
            } else {
                seq!["-startup"@]
            };
            assert(texts(arguments@) =~= expected);
        }
        Ok(arguments)
    }

    /// The query for a search, where the database is loaded.
    pub fn search(&self, request: &EverythingSearchRequest, database_loaded: bool) -> (result:
        Result<EverythingQuery, EverythingError>)
        ensures
            match result {
                Ok(query) => {
                    &&& database_loaded
                    &&& query.search@ == composed_search(
                        match request.scope {
                            Some(path) => Some(path@),
                            None => None,
                        },
                        request.query@,
                    )
                    &&& query.offset == request.offset
                    &&& query.max_results == if request.max_results < MAX_RESULTS {
                        request.max_results
                    } else {
                        MAX_RESULTS
                    }
                    &&& query.sort == request.sort.number()
                },
                Err(error) => !database_loaded && error is DatabaseNotLoaded,
            },
    {
        if !database_loaded {
            return Err(EverythingError::DatabaseNotLoaded);
        }
        let scope = match &request.scope {
            Some(path) => Some(path.as_slice()),
            None => None,
        };
        Ok(
            EverythingQuery {
                search: compose_search(scope, request.query.as_str()),
                offset: request.offset,
                max_results: if request.max_results < MAX_RESULTS {
                    request.max_results
                } else {
                    MAX_RESULTS
                },
                sort: request.sort.ipc(),
            },
        )
    }

    /// The search for the size of a folder, where sizes of folders are indexed.
    pub fn folder_size_request(&self, status: &EverythingStatus, path: &[u16]) -> (request: Option<
        EverythingSearchRequest,
    >)
        ensures
            request is Some <==> status.database_loaded && status.folder_size_indexed,
            request matches Some(request) ==> request.query@ == folder_query(path@)
                && request.scope is None && request.offset == 0 && request.max_results == 64
                && request.sort == EverythingSort::NameAscending,
    {
        if !status.database_loaded || !status.folder_size_indexed {
            return None;
        }
        let mut query = text_of("folder:wholepath:\"");
        let chars = decode_lossy(path);
        let shown = string_from_chars(chars.as_slice());
        push_text(&mut query, quote(shown.as_str()).as_str());
        push_text(&mut query, "\"");
        Some(
            EverythingSearchRequest {
                query,
                scope: None,
                offset: 0,
                max_results: 64,
                sort: EverythingSort::NameAscending,
            },
        )
    }

    /// The size of a folder in a page of hits.
    pub fn folder_size(&self, page: &EverythingSearchPage, path: &[u16]) -> (size:
        EverythingFolderSize)
        ensures
            size == size_of_folder(page.items@, path@),
    {
        let n: usize = page.items.len();
        let mut i: usize = 0;
        assert(page.items@.subrange(0, n as int) =~= page.items@);
        while i < n
            invariant
                n == page.items@.len(),
                i <= n,
                size_of_folder(page.items@, path@) == size_of_folder(
                    page.items@.subrange(i as int, n as int),
                    path@,
                ),
            decreases n - i,
        {
            let ghost rest = page.items@.subrange(i as int, n as int);
            assert(rest.subrange(1, rest.len() as int) =~= page.items@.subrange(i + 1, n as int));
            if windows_path_eq(page.items[i].path.as_slice(), path) {
                return match page.items[i].size {
                    Some(size) => EverythingFolderSize::Indexed(size),
                    None => EverythingFolderSize::NotIndexed,
                };
            }
            i += 1;
        }
        EverythingFolderSize::NotIndexed
    }

    /// The class of the window to talk to.
    pub fn window_class(&self) -> (class: String)
        ensures
            class@ == class_of(self.settings().instance_name@),
    {
        instance_class(self.config.instance_name.as_str())
    }

    /// The window that was found, by its handle.
    pub fn window(&self, found: i64) -> (result: Result<i64, EverythingError>)
        ensures
            match result {
                Ok(window) => found != 0 && window == found,
                Err(error) => found == 0 && (error matches EverythingError::NotRunning(instance)
                    && instance@ == self.settings().instance_name@),
            },
    {
        if found == 0 {
            Err(EverythingError::NotRunning(text_of(self.config.instance_name.as_str())))
        } else {
            Ok(found)
        }
    }
}

// ---- messages ----

pub const ERROR_TIMEOUT: u32 = 1460;

pub const ERROR_CLASS_ALREADY_EXISTS: u32 = 1410;

/// The error for a system error number.
pub fn last_error(code: u32) -> (error: EverythingError)
    ensures
        error == if code == ERROR_TIMEOUT {
            EverythingError::Timeout
        } else {
            EverythingError::Windows(code)
        },
{
    if code == ERROR_TIMEOUT {
        EverythingError::Timeout
    } else {
        EverythingError::Windows(code)
    }
}

/// A time limit as the system takes it.
pub fn millis(limit: u128) -> (shown: u32)
    ensures
        shown == if limit < 1 {
            1
        } else if limit > u32::MAX {
            u32::MAX as int
        } else {
            limit as int
        },
{
    if limit < 1 {
        1
    } else if limit > 0xffff_ffff {
        u32::MAX
    } else {
        limit as u32
    }
}

/// Whether the class of the reply window is there, given the error of its registration.
pub fn register_reply(code: Option<u32>) -> (result: Result<(), EverythingError>)
    ensures
        match code {
            Some(code) if code != ERROR_CLASS_ALREADY_EXISTS => result == Err::<
                (),
                EverythingError,
            >(EverythingError::Windows(code)),
            _ => result is Ok,
        },
{
    match code {
        Some(code) => {
            if code == ERROR_CLASS_ALREADY_EXISTS {
                Ok(())
            } else {
                Err(EverythingError::Windows(code))
            }
        },
        None => Ok(()),
    }
}

/// Whether a query was taken: `delivered` says that the message arrived, `accepted` what was
/// answered, and `code` the system error number otherwise.
pub fn query_accepted(delivered: bool, accepted: u64, code: u32) -> (result: Result<
    (),
    EverythingError,
>)
    ensures
        match result {
            Ok(_) => delivered && accepted != 0,
            Err(error) => if !delivered {
                error == if code == ERROR_TIMEOUT {
                    EverythingError::Timeout
                } else {
                    EverythingError::Windows(code)
                }
            } else {
                accepted == 0 && error == EverythingError::QueryRejected
            },
        },
{
    if !delivered {
        return Err(last_error(code));
    }
    if accepted == 0 {
        return Err(EverythingError::QueryRejected);
    }
    Ok(())
}

pub const WM_COPYDATA: u32 = 74;

pub const WM_NCCREATE: u32 = 129;

pub const WM_TIMER: u32 = 275;

/// The mark of an answer to our query.
pub const REPLY: u64 = 0x4153_5445;

/// What the reply window does with a message.
#[derive(Debug, Clone, Copy, PartialEq, Eq, Structural)]
pub enum ReplyStep {
    /// Keep the state that comes with the message.
    Attach,
    /// Parse the data as the result.
    Parse,
    /// The result is a timeout.
    TimedOut,
    /// Leave the message to the system.
    Pass,
}

pub fn reply_step(message: u32, has_state: bool, mark: u64, has_data: bool) -> (step: ReplyStep)
    ensures
        step == if message == WM_NCCREATE {
            ReplyStep::Attach
        } else if message == WM_COPYDATA && has_state && mark == REPLY && has_data {
            ReplyStep::Parse
        } else if message == WM_TIMER && has_state {
            ReplyStep::TimedOut
        } else {
            ReplyStep::Pass
        },
{
    if message == WM_NCCREATE {
        ReplyStep::Attach
    } else if message == WM_COPYDATA && has_state {
        if mark == REPLY && has_data {
            ReplyStep::Parse
        } else {
            ReplyStep::Pass
        }
    } else if message == WM_TIMER && has_state {
        ReplyStep::TimedOut
    } else {
        ReplyStep::Pass
    }
}

// ---- laws ----

/// The instance is found again in the class of its window.
pub proof fn law_class_round_trip(instance: Seq<char>)
    requires
        valid_instance(instance),
    ensures
        instance_of(class_of(instance)) == Some(instance),
{
    reveal_strlit("EVERYTHING_TASKBAR_NOTIFICATION");
    reveal_strlit("EVERYTHING_TASKBAR_NOTIFICATION_(");
    reveal_strlit("_(");
    reveal_strlit(")");
    let start = named_class_start();
    let class = class_of(instance);
    if instance.len() == 0 {
        assert(instance =~= Seq::empty());
    } else {
        assert("EVERYTHING_TASKBAR_NOTIFICATION"@ + "_("@ =~= start);
        assert(class.len() == start.len() + instance.len() + 1);
        assert(class != "EVERYTHING_TASKBAR_NOTIFICATION"@);
        assert(class.subrange(0, start.len() as int) =~= start);
        assert(class.last() == ')');
        assert(class.subrange(start.len() as int, class.len() - 1) =~= instance);
    }
}

/// No operator of the search language comes out of a scope: an encoded character is a letter, a
/// number, a plain mark or the number sign.
pub proof fn law_scopes_hold_no_operators(value: Seq<char>, i: int)
    requires
        0 <= i < encoded_argument(value).len(),
    ensures
        ({
            let c = encoded_argument(value)[i];
            alphanumeric(c) || plain_mark(c) || c == '#' || 0x30 <= c as u32 <= 0x39
        }),
    decreases value.len(),
{
    let before = encoded_argument(value.drop_last());
    if i < before.len() {
        law_scopes_hold_no_operators(value.drop_last(), i);
    } else {
        let last = value.last();
        let at = i - before.len();
        let encoded = encoded_char(last, alphanumeric(last));
        assert(encoded_argument(value)[i] == encoded[at]);
        if !(alphanumeric(last) || plain_mark(last)) {
            lemma_decimal_digits(last as nat);
            let digits = text::decimal(last as nat);
            if at == 0 {
                assert(encoded[at] == '#');
            } else if at < digits.len() + 1 {
                assert(encoded[at] == digits[at - 1]);
            } else {
                assert(encoded[at] == ':');
            }
        }
    }
}

proof fn lemma_decimal_digits(n: nat)
    ensures
        forall|i: int|
            0 <= i < text::decimal(n).len() ==> 0x30 <= #[trigger] text::decimal(n)[i] as u32
                <= 0x39,
    decreases n,
{
    if n >= 10 {
        lemma_decimal_digits(n / 10);
    }
    assert forall|i: int| 0 <= i < text::decimal(n).len() implies 0x30 <= #[trigger] text::decimal(
        n,
    )[i] as u32 <= 0x39 by {
        if n >= 10 && i < text::decimal(n / 10).len() {
            assert(text::decimal(n)[i] == text::decimal(n / 10)[i]);
        }
    }
}

/// A search without a scope is the query as it was typed, but for the space around it.
pub proof fn law_global_searches_are_unchanged(query: Seq<char>)
    requires
        text::trimmed(query) == query,
    ensures
        composed_search(None, query) == query,
{
}

proof fn lemma_encoded_more(value: Seq<char>, c: char)
    ensures
        encoded_argument(value.push(c)) == encoded_argument(value) + encoded_char(
            c,
            alphanumeric(c),
        ),
{
    assert(value.push(c).drop_last() =~= value);
}

/// One more character of an argument adds itself where it is a letter, a digit or one of the marks of a
/// path, and else its number between `#` and `:`; what stands before stays.
pub proof fn law_arguments_are_encoded_one_by_one(
    value: &str,
    c: char,
    more: &str,
    before: String,
    after: String,
)
    requires
        more@ == value@.push(c),
        c as u32 <= 0x7f,
        call_ensures(encode_function_argument, (value,), before),
        call_ensures(encode_function_argument, (more,), after),
    ensures
        value@.len() == 0 ==> before@.len() == 0,
        c == '\\' || c == ':' || c == '.' || c == '_' || c == '-' ==> after@ == before@.push(c),
        alphanumeric(c) ==> after@ == before@.push(c),
        !alphanumeric(c) && !(c == '\\' || c == ':' || c == '.' || c == '_' || c == '-') ==> after@
            == before@ + (seq!['#'] + text::decimal(c as nat) + seq![':']),
{
    lemma_encoded_more(value@, c);
    assert(encoded_argument(value@) + seq![c] =~= encoded_argument(value@).push(c));
}

/// A search without a scope is what was typed, trimmed; one with a scope asks for what lies below it
/// and, where something was typed, for that as well.
pub proof fn law_a_scope_is_asked_for(
    scope: &[u16],
    shown: &str,
    encoded: String,
    query: &str,
    blank: &str,
    plain: String,
    scoped: String,
    all: String,
)
    requires
        query@.len() > 0,
        !text::is_white_space(query@[0]) && !text::is_white_space(query@.last()),
        blank@.len() == 0,
        shown@ == text::utf16_lossy(scope@),
        call_ensures(encode_function_argument, (shown,), encoded),
        call_ensures(compose_search, (None::<&[u16]>, query), plain),
        call_ensures(compose_search, (Some(scope), query), scoped),
        call_ensures(compose_search, (Some(scope), blank), all),
    ensures
        plain@ == query@,
        all@ == "ancestor:"@ + encoded@,
        scoped@ == "<"@ + all@ + "> "@ + query@,
{
    reveal_with_fuel(text::trim_start_spec, 2);
    reveal_with_fuel(text::trim_end_spec, 2);
    assert(text::trimmed(query@) == query@);
    assert(text::trimmed(blank@) == blank@);
}

/// In a quoted value each quotation mark is doubled, and every other character stays.
pub proof fn law_quotation_marks_are_doubled(
    value: &str,
    c: char,
    more: &str,
    before: String,
    after: String,
)
    requires
        more@ == value@.push(c),
        call_ensures(quote, (value,), before),
        call_ensures(quote, (more,), after),
    ensures
        value@.len() == 0 ==> before@.len() == 0,
        c == '"' ==> after@ == before@.push('"').push('"'),
        c != '"' ==> after@ == before@.push(c),
{
    assert(more@.drop_last() =~= value@);
    assert(before@ + seq!['"', '"'] =~= before@.push('"').push('"'));
}

/// An instance is found again by the class of its window, and instances have classes of their own.
pub proof fn law_an_instance_is_found_by_its_class(
    instance: &str,
    other: &str,
    class: String,
    other_class: String,
    shown: &str,
    found: Option<String>,
)
    requires
        valid_instance(instance@) && valid_instance(other@),
        call_ensures(instance_class, (instance,), class),
        call_ensures(instance_class, (other,), other_class),
        shown@ == class@,
        call_ensures(class_instance, (shown,), found),
    ensures
        found is Some && found->0@ == instance@,
        instance@ != other@ ==> class@ != other_class@,
{
    law_class_round_trip(instance@);
    law_class_round_trip(other@);
}

/// An instance that runs is noted once, by its class; a class of another program is passed over.
pub proof fn law_running_instances_are_noted_once(
    first: &mut Vec<String>,
    second: &mut Vec<String>,
    class: &str,
    found: Option<String>,
)
    requires
        call_ensures(class_instance, (class,), found),
        call_ensures(add_running_instance, (first, class), ()),
        *old(second) == *final(first),
        call_ensures(add_running_instance, (second, class), ()),
    ensures
        texts(final(second)@) == texts(final(first)@),
        found is None ==> texts(final(first)@) == texts(old(first)@),
        found matches Some(instance) ==> texts(final(first)@).contains(instance@),
        final(first)@.len() <= old(first)@.len() + 1,
        forall|i: int|
            0 <= i < old(first)@.len() ==> texts(final(first)@)[i] == #[trigger] old(first)@[i]@,
{
    let before = texts(old(first)@);
    let after = texts(final(first)@);
    assert(after.len() == final(first)@.len());
    if found is Some {
        let instance = found->0@;
        if !before.contains(instance) {
            assert(after[before.len() as int] == instance);
        }
        assert(after.contains(instance));
    }
    assert forall|i: int| 0 <= i < old(first)@.len() implies after[i]
        == #[trigger] old(first)@[i]@ by {
        assert(before[i] == old(first)@[i]@);
        assert(after[i] == before[i]);
    }
}

/// A client is made for every name that a window class can hold, keeps its settings, and talks to the
/// window of its own instance.
pub proof fn law_a_client_keeps_its_settings(
    config: PlatformEverythingConfig,
    client: EverythingClient,
    settings: &PlatformEverythingConfig,
    name: &str,
    expected: String,
    class: String,
    found: i64,
    window: Result<i64, EverythingError>,
)
    requires
        call_ensures(EverythingClient::new, (config,), Ok(client)),
        call_ensures(EverythingClient::config, (&client,), settings),
        name@ == config.instance_name@,
        call_ensures(instance_class, (name,), expected),
        call_ensures(EverythingClient::window_class, (&client,), class),
        call_ensures(EverythingClient::window, (&client, found), window),
    ensures
        *settings == config,
        class@ == expected@,
        window is Ok <==> found != 0,
        window matches Ok(handle) ==> handle == found,
        forall|i: int|
            0 <= i < name@.len() ==> name@[i] != '\0' && name@[i] != '(' && #[trigger] name@[i] != ')',
{
    assert forall|i: int| 0 <= i < name@.len() implies name@[i] != '\0' && name@[i] != '('
        && #[trigger] name@[i] != ')' by {
        assert(name@.contains(name@[i]));
    }
}

/// The status is learnt question by question: first the four numbers of the version, then the
/// architecture, then what is indexed. A version or an architecture that is not supported ends it, and
/// it is complete only with all seven answers.
pub proof fn law_the_status_is_asked_for_in_order(
    client: EverythingClient,
    replies: &[u64],
    step: StatusStep,
)
    requires
        call_ensures(EverythingClient::status, (&client, replies), step),
    ensures
        replies@.len() < 4 ==> step == (StatusStep::Send {
            command: replies@.len() as u32,
            argument: 0,
        }),
        step is Done ==> replies@.len() >= 7 && replies@[4] == 2,
        replies@.len() >= 4 && replies@[0] == 1 && 5 <= replies@[1] <= u32::MAX ==> {
            &&& replies@.len() == 4 ==> step == (StatusStep::Send { command: 5, argument: 0 })
            &&& replies@.len() > 4 && replies@[4] != 2 ==> step is Fail
                && step->Fail_0 is UnsupportedArchitecture
            &&& replies@.len() == 5 && replies@[4] == 2 ==> step == (StatusStep::Send {
                command: 401,
                argument: 0,
            })
            &&& replies@.len() == 6 && replies@[4] == 2 ==> step == (StatusStep::Send {
                command: 411,
                argument: 2,
            })
            &&& replies@.len() >= 7 && replies@[4] == 2 ==> step is Done
        },
        replies@.len() >= 4 && (replies@[0] == 0 || 2 <= replies@[0] <= u32::MAX || replies@[1]
            < 5) ==> step is Fail && step->Fail_0 is UnsupportedVersion,
        step matches StatusStep::Done(status) ==> {
            &&& status.database_loaded <==> replies@[5] != 0
            &&& status.folder_size_indexed <==> replies@[6] != 0
            &&& replies@[1] <= u32::MAX ==> status.version.minor == replies@[1]
            &&& replies@[2] <= u32::MAX ==> status.version.revision == replies@[2]
            &&& replies@[3] <= u32::MAX ==> status.version.build == replies@[3]
        },
{
}

/// Everything is started only where that is allowed and its program is a file, with the name of the
/// instance where it has one.
pub proof fn law_everything_is_started_on_request(
    client: EverythingClient,
    settings: &PlatformEverythingConfig,
    is_file: bool,
    result: Result<Vec<String>, EverythingError>,
)
    requires
        call_ensures(EverythingClient::config, (&client,), settings),
        call_ensures(EverythingClient::start, (&client, is_file), result),
    ensures
        result is Ok <==> settings.allow_start && is_file,
        result is Err ==> (result->Err_0 is StartFailed <==> !settings.allow_start),
        result matches Ok(arguments) ==> {
            &&& arguments@.len() == if settings.instance_name@.len() > 0 {
                3int
            } else {
                1int
            }
            &&& arguments@.last()@ == "-startup"@
            &&& settings.instance_name@.len() > 0 ==> arguments@[0]@ == "-instance"@
                && arguments@[1]@ == settings.instance_name@
        },
{
    if result is Ok {
        let arguments = result->Ok_0@;
        let shown = texts(arguments);
        assert(shown.len() == arguments.len());
        assert(shown.last() == arguments.last()@);
        if settings.instance_name@.len() > 0 {
            assert(shown[0] == arguments[0]@ && shown[1] == arguments[1]@);
        }
    }
}

/// A query asks for what was requested, from the requested hit on, and for no more than the limit;
/// nothing is asked before the database is loaded.
pub proof fn law_a_query_asks_for_what_was_requested(
    client: EverythingClient,
    request: EverythingSearchRequest,
    database_loaded: bool,
    result: Result<EverythingQuery, EverythingError>,
    scope: Option<&[u16]>,
    typed: &str,
    expected: String,
)
    requires
        scope is Some <==> request.scope is Some,
        scope is Some ==> scope->0@ == request.scope->0@,
        typed@ == request.query@,
        call_ensures(compose_search, (scope, typed), expected),
        call_ensures(EverythingClient::search, (&client, &request, database_loaded), result),
    ensures
        result is Ok <==> database_loaded,
        result matches Ok(query) ==> {
            &&& query.search@ == expected@
            &&& query.offset == request.offset
            &&& query.max_results <= request.max_results
            &&& query.max_results <= 4096
            &&& query.max_results == request.max_results || query.max_results == 4096
            &&& request.sort == EverythingSort::NameAscending <==> query.sort == 1
            &&& request.sort == EverythingSort::NameDescending <==> query.sort == 2
            &&& request.sort == EverythingSort::PathAscending <==> query.sort == 3
            &&& request.sort == EverythingSort::PathDescending <==> query.sort == 4
            &&& request.sort == EverythingSort::SizeAscending <==> query.sort == 5
            &&& request.sort == EverythingSort::SizeDescending <==> query.sort == 6
            &&& request.sort == EverythingSort::ModifiedAscending <==> query.sort == 13
            &&& request.sort == EverythingSort::ModifiedDescending <==> query.sort == 14
        },
{
}

proof fn lemma_size_at(items: Seq<EverythingSearchItem>, path: Seq<u16>, at: int)
    requires
        0 <= at <= items.len(),
        forall|i: int| 0 <= i < at ==> !equal_paths((#[trigger] items[i]).path@, path),
        at < items.len() ==> equal_paths(items[at].path@, path),
    ensures
        size_of_folder(items, path) == if at < items.len() && items[at].size is Some {
            EverythingFolderSize::Indexed(items[at].size->0)
        } else {
            EverythingFolderSize::NotIndexed
        },
    decreases at,
{
    if at > 0 {
        let rest = items.subrange(1, items.len() as int);
        assert(!equal_paths(items[0].path@, path));
        assert forall|i: int| 0 <= i < at - 1 implies !equal_paths(
            (#[trigger] rest[i]).path@,
            path,
        ) by {
            assert(rest[i] == items[i + 1]);
        }
        lemma_size_at(rest, path, at - 1);
    }
}

/// The size of a folder is that of the first hit for its path, whatever other hits there are; without
/// one it is not indexed. It is asked for only where sizes are indexed.
pub proof fn law_the_size_is_that_of_the_folder(
    client: EverythingClient,
    page: EverythingSearchPage,
    path: &[u16],
    at: int,
    size: EverythingFolderSize,
    status: EverythingStatus,
    request: Option<EverythingSearchRequest>,
)
    requires
        0 <= at <= page.items@.len(),
        forall|i: int| 0 <= i < at ==> !equal_paths((#[trigger] page.items@[i]).path@, path@),
        at < page.items@.len() ==> page.items@[at].path@ == path@,
        call_ensures(EverythingClient::folder_size, (&client, &page, path), size),
        call_ensures(EverythingClient::folder_size_request, (&client, &status, path), request),
    ensures
        at < page.items@.len() && page.items@[at].size is Some ==> size
            == EverythingFolderSize::Indexed(page.items@[at].size->0),
        at < page.items@.len() && page.items@[at].size is None ==> size
            == EverythingFolderSize::NotIndexed,
        at == page.items@.len() ==> size == EverythingFolderSize::NotIndexed,
        request is Some <==> status.database_loaded && status.folder_size_indexed,
        request matches Some(asked) ==> asked.scope is None && asked.offset == 0,
{
    lemma_size_at(page.items@, path@, at);
}

/// Paths of hits are compared without regard to the case of ASCII letters.
pub proof fn law_hits_are_compared_without_case(left: &[u16], right: &[u16], equal: bool)
    requires
        forall|i: int| 0 <= i < left@.len() ==> #[trigger] left@[i] < 0xd800,
        forall|i: int| 0 <= i < right@.len() ==> #[trigger] right@[i] < 0xd800,
        call_ensures(windows_path_eq, (left, right), equal),
    ensures
        equal <==> left@.len() == right@.len() && forall|i: int|
            0 <= i < left@.len() ==> {
                ||| #[trigger] left@[i] == right@[i]
                ||| 0x41 <= left@[i] <= 0x5a && right@[i] == left@[i] + 0x20
                ||| 0x41 <= right@[i] <= 0x5a && left@[i] == right@[i] + 0x20
            },
{
    crate::windows::quick_access::lemma_paths_without_case(left@, right@);
}

/// What was delivered and taken is accepted; what was not is a timeout or an error of the system. A
/// window class that is there already is no error, and a limit is never shown as zero.
pub proof fn law_queries_are_answered(
    delivered: bool,
    accepted: u64,
    code: u32,
    result: Result<(), EverythingError>,
    error: EverythingError,
    limit: u128,
    shown: u32,
    failure: Option<u32>,
    registered: Result<(), EverythingError>,
)
    requires
        call_ensures(query_accepted, (delivered, accepted, code), result),
        call_ensures(last_error, (code,), error),
        call_ensures(millis, (limit,), shown),
        call_ensures(register_reply, (failure,), registered),
    ensures
        result is Ok <==> delivered && accepted != 0,
        !delivered ==> result == Err::<(), EverythingError>(error),
        delivered && accepted == 0 ==> result == Err::<(), EverythingError>(
            EverythingError::QueryRejected,
        ),
        error is Timeout <==> code == 1460,
        code != 1460 ==> error == EverythingError::Windows(code),
        shown >= 1,
        1 <= limit <= u32::MAX ==> shown == limit,
        limit > u32::MAX ==> shown == u32::MAX,
        registered is Ok <==> failure is None || failure == Some(1410u32),
        registered matches Err(e) ==> e == EverythingError::Windows(failure->0),
{
}

/// One more program adds one installation behind the others, at its path and not running, unless there
/// is one at that path already; the others stay as they are.
pub proof fn law_programs_are_added_once(
    registered: Vec<EverythingInstallation>,
    running: &[String],
    programs: &[Vec<u16>],
    program: Vec<u16>,
    more: &[Vec<u16>],
    before: Vec<EverythingInstallation>,
    after: Vec<EverythingInstallation>,
)
    requires
        more@ == programs@.push(program),
        call_ensures(EverythingClient::discover, (registered, running, programs), before),
        call_ensures(EverythingClient::discover, (registered, running, more), after),
    ensures
        forall|i: int|
            0 <= i < before@.len() ==> (#[trigger] after@[i]).executable_path@
                == before@[i].executable_path@ && after@[i].instance_name@
                == before@[i].instance_name@ && after@[i].running == before@[i].running,
        (exists|i: int|
            0 <= i < before@.len() && (#[trigger] before@[i]).executable_path@ == program@)
            ==> after@.len() == before@.len(),
        after@.len() == before@.len() || (after@.len() == before@.len() + 1
            && after@.last().executable_path@ == program@ && !after@.last().running
            && after@.last().instance_name@.len() == 0),
        exists|i: int|
            0 <= i < after@.len() && winpath::same_path(
                (#[trigger] after@[i]).executable_path@,
                program@,
            ),
{
    let marked = with_all_running(installations(registered@), texts(running@));
    let paths = winpath::path_views(programs@);
    let all = winpath::path_views(more@);
    assert(all.drop_last() =~= paths);
    assert(all.last() == program@);
    let a = with_all_programs(marked, paths);
    let b = with_all_programs(marked, all);
    assert(a == installations(before@) && b == installations(after@));
    assert(b == with_program(a, program@));
    assert(before@.len() == a.len() && after@.len() == b.len());
    assert forall|i: int| 0 <= i < before@.len() implies (#[trigger] after@[i]).executable_path@
        == before@[i].executable_path@ && after@[i].instance_name@ == before@[i].instance_name@
        && after@[i].running == before@[i].running by {
        assert(a[i] == before@[i]@);
        assert(b[i] == after@[i]@);
    }
    if exists|i: int| 0 <= i < before@.len() && (#[trigger] before@[i]).executable_path@ == program@ {
        let i = choose|i: int|
            0 <= i < before@.len() && (#[trigger] before@[i]).executable_path@ == program@;
        assert(winpath::same_path(a[i].path, program@));
    }
    if exists|i: int| 0 <= i < a.len() && winpath::same_path(#[trigger] a[i].path, program@) {
        let i = choose|i: int|
            0 <= i < a.len() && winpath::same_path(#[trigger] a[i].path, program@);
        assert(b[i] == after@[i]@);
    } else {
        let n = a.len() as int;
        assert(b[n] == after@[n]@);
        assert(after@.last() == after@[n]);
        assert(winpath::same_path(after@[n].executable_path@, program@));
    }
}

proof fn lemma_instance_position_meaning(found: Seq<Installation>, instance: Seq<char>)
    ensures
        0 <= instance_position(found, instance) <= found.len(),
        instance_position(found, instance) < found.len() ==> same_instance(
            found[instance_position(found, instance)].instance,
            instance,
        ),
        forall|i: int|
            0 <= i < instance_position(found, instance) ==> !same_instance(
                (#[trigger] found[i]).instance,
                instance,
            ),
    decreases found.len(),
{
    if found.len() > 0 && !same_instance(found[0].instance, instance) {
        let rest = found.subrange(1, found.len() as int);
        lemma_instance_position_meaning(rest, instance);
        assert forall|i: int| 0 <= i < instance_position(found, instance) implies !same_instance(
            (#[trigger] found[i]).instance,
            instance,
        ) by {
            if i > 0 {
                assert(rest[i - 1] == found[i]);
            }
        }
    }
}

/// One more instance that runs marks the installation of that name as running, and no other; where there
/// is none, it adds one. Paths and names stay.
pub proof fn law_running_instances_are_marked(
    registered: Vec<EverythingInstallation>,
    running: &[String],
    instance: String,
    more: &[String],
    before: Vec<EverythingInstallation>,
    after: Vec<EverythingInstallation>,
    none: &[Vec<u16>],
)
    requires
        none@.len() == 0,
        more@ == running@.push(instance),
        call_ensures(EverythingClient::discover, (registered, running, none), before),
        call_ensures(EverythingClient::discover, (registered, more, none), after),
    ensures
        forall|i: int|
            0 <= i < before@.len() ==> {
                &&& (#[trigger] after@[i]).executable_path@ == before@[i].executable_path@
                &&& after@[i].instance_name@ == before@[i].instance_name@
                &&& before@[i].running ==> after@[i].running
                &&& after@[i].running && !before@[i].running ==> same_instance(
                    before@[i].instance_name@,
                    instance@,
                )
            },
        exists|i: int|
            0 <= i < after@.len() && (#[trigger] after@[i]).running && same_instance(
                after@[i].instance_name@,
                instance@,
            ),
        after@.len() == before@.len() || (after@.len() == before@.len() + 1 && after@.last().running
            && after@.last().instance_name@ == instance@ && after@.last().executable_path@.len()
            == 0),
{
    let start = installations(registered@);
    let names = texts(running@);
    let all = texts(more@);
    assert(all.drop_last() =~= names);
    assert(all.last() == instance@);
    assert(winpath::path_views(none@) =~= Seq::<Seq<u16>>::empty());
    let a = with_all_running(start, names);
    let b = with_all_running(start, all);
    assert(a == installations(before@) && b == installations(after@));
    assert(b == with_running(a, instance@));
    assert(before@.len() == a.len() && after@.len() == b.len());
    lemma_instance_position_meaning(a, instance@);
    let at = instance_position(a, instance@);
    assert forall|i: int| 0 <= i < before@.len() implies {
        &&& (#[trigger] after@[i]).executable_path@ == before@[i].executable_path@
        &&& after@[i].instance_name@ == before@[i].instance_name@
        &&& before@[i].running ==> after@[i].running
        &&& after@[i].running && !before@[i].running ==> same_instance(
            before@[i].instance_name@,
            instance@,
        )
    } by {
        assert(a[i] == before@[i]@);
        assert(b[i] == after@[i]@);
    }
    assert(b[at] == after@[at]@);
    assert(after@[at].running && same_instance(after@[at].instance_name@, instance@));
    if at == a.len() {
        assert(after@.last() == after@[at]);
    }
}

} // verus!
