//! The report on which images the Shell gives for a set of sample files.
use vstd::prelude::*;

use crate::network;
use crate::network::{FNV_OFFSET, FNV_PRIME};
use crate::text;
use crate::text::{push_decimal, push_hex, push_text, str_chars, text_of};
use crate::windows::shell_icons::{GridImageSource, ShellGridImage, ShellIconRgba, ThumbnailSource};

verus! {

// ---- texts ----

/// Control characters: those below space, and from delete on those below the no-break space.
pub open spec fn is_control(c: char) -> bool {
    c as u32 <= 0x1f || 0x7f <= c as u32 <= 0x9f
}

/// A character as it stands inside a JSON string of the report.
pub open spec fn quoted_char(c: char) -> Seq<char> {
    if c == '"' {
        seq!['\\', '"']
    } else if c == '\\' {
        seq!['\\', '\\']
    } else if is_control(c) {
        seq!['\\', 'u'] + text::hex_digits(c as nat, 4)
    } else {
        seq![c]
    }
}

pub open spec fn quoted_chars(value: Seq<char>) -> Seq<char>
    decreases value.len(),
{
    if value.len() == 0 {
        Seq::empty()
    } else {
        quoted_chars(value.drop_last()) + quoted_char(value.last())
    }
}

/// A text as a JSON string.
pub open spec fn json_string(value: Seq<char>) -> Seq<char> {
    seq!['"'] + quoted_chars(value) + seq!['"']
}

fn push_quoted(out: &mut String, c: char)
    ensures
        final(out)@ == old(out)@ + quoted_char(c),
{
    if c == '"' {
        out.push('\\');
        out.push('"');
    } else if c == '\\' {
        out.push('\\');
        out.push('\\');
    } else if c as u32 <= 0x1f || (0x7f <= c as u32 && c as u32 <= 0x9f) {
        out.push('\\');
        out.push('u');
        push_hex(out, c as u32 as u64, 4);
    } else {
        out.push(c);
    }
    assert(out@ =~= old(out)@ + quoted_char(c));
}

pub fn shell_probe_json_string(value: &str) -> (out: String)
    ensures
        out@ == json_string(value@),
{
    let chars = str_chars(value);
    let mut out = String::new();
    out.push('"');
    let mut i: usize = 0;
    while i < chars.len()
        invariant
            i <= chars@.len(),
            chars@ == value@,
            out@ == seq!['"'] + quoted_chars(value@.subrange(0, i as int)),
        decreases chars@.len() - i,
    {
        proof {
            let next = value@.subrange(0, i + 1);
            assert(next.drop_last() =~= value@.subrange(0, i as int));
        }
        let ghost before = out@;
        push_quoted(&mut out, chars[i]);
        assert(out@ =~= seq!['"'] + quoted_chars(value@.subrange(0, i + 1)));
        i += 1;
    }
    assert(value@.subrange(0, i as int) =~= value@);
    out.push('"');
    assert(out@ =~= json_string(value@));
    out
}

/// The hash of a row of bytes, from a start value on.
pub open spec fn bytes_hash(start: u64, bytes: Seq<u8>) -> u64
    decreases bytes.len(),
{
    if bytes.len() == 0 {
        start
    } else {
        network::fnv_byte(bytes_hash(start, bytes.drop_last()), bytes.last() as u64)
    }
}

/// The fingerprint of an image: the hash of its pixels, in sixteen hexadecimal digits.
pub fn thumbnail_fingerprint(image: &ShellIconRgba) -> (print: String)
    ensures
        print@ == text::hex_digits(bytes_hash(FNV_OFFSET, image.pixels@) as nat, 16),
{
    let mut hash: u64 = FNV_OFFSET;
    let mut i: usize = 0;
    while i < image.pixels.len()
        invariant
            i <= image.pixels@.len(),
            hash == bytes_hash(FNV_OFFSET, image.pixels@.subrange(0, i as int)),
        decreases image.pixels@.len() - i,
    {
        proof {
            let next = image.pixels@.subrange(0, i + 1);
            assert(next.drop_last() =~= image.pixels@.subrange(0, i as int));
        }
        hash = (hash ^ (image.pixels[i] as u64)).wrapping_mul(FNV_PRIME);
        i += 1;
    }
    assert(image.pixels@.subrange(0, i as int) =~= image.pixels@);
    let mut print = String::new();
    push_hex(&mut print, hash, 16);
    assert(print@ =~= text::hex_digits(hash as nat, 16));
    print
}

// ---- the samples ----

/// The sample files, and a file that the user names.
#[derive(Debug, Clone, Copy, PartialEq, Eq, Structural)]
pub enum Fixture {
    Png,
    Mtl,
    Unknown,
    Folder,
    UserSupplied,
}

impl Fixture {
    pub open spec fn label(self) -> Seq<char> {
        match self {
            Fixture::Png => "png"@,
            Fixture::Mtl => "mtl"@,
            Fixture::Unknown => "unknown"@,
            Fixture::Folder => "folder"@,
            Fixture::UserSupplied => "user_supplied"@,
        }
    }

    pub fn name(self) -> (name: &'static str)
        ensures
            name@ == self.label(),
    {
        match self {
            Fixture::Png => "png",
            Fixture::Mtl => "mtl",
            Fixture::Unknown => "unknown",
            Fixture::Folder => "folder",
            Fixture::UserSupplied => "user_supplied",
        }
    }
}

/// An image is asked for twice.
#[derive(Debug, Clone, Copy, PartialEq, Eq, Structural)]
pub enum Pass {
    First,
    Repeat,
}

impl Pass {
    pub open spec fn label(self) -> Seq<char> {
        match self {
            Pass::First => "first"@,
            Pass::Repeat => "repeat"@,
        }
    }

    pub fn name(self) -> (name: &'static str)
        ensures
            name@ == self.label(),
    {
        match self {
            Pass::First => "first",
            Pass::Repeat => "repeat",
        }
    }
}

pub open spec fn source_label(source: GridImageSource) -> Seq<char> {
    match source {
        GridImageSource::Thumbnail(ThumbnailSource::Cache) => "thumbnail_cache"@,
        GridImageSource::Thumbnail(ThumbnailSource::Provider) => "provider"@,
        GridImageSource::SystemIcon => "system_icon"@,
    }
}

pub fn source_name(source: GridImageSource) -> (name: &'static str)
    ensures
        name@ == source_label(source),
{
    match source {
        GridImageSource::Thumbnail(ThumbnailSource::Cache) => "thumbnail_cache",
        GridImageSource::Thumbnail(ThumbnailSource::Provider) => "provider",
        GridImageSource::SystemIcon => "system_icon",
    }
}

/// Why an image is not what its sample must give, if it is not.
pub open spec fn image_fault(fixture: Fixture, image: ShellGridImage) -> Option<Seq<char>> {
    if image.image.width == 0 || image.image.height == 0 {
        Some(fixture.label() + ": Shell returned an empty image"@)
    } else if fixture == Fixture::Png && (image.source == GridImageSource::SystemIcon
        || image.image.width < 64 || image.image.height < 64) {
        Some("PNG fixture did not produce a real thumbnail"@)
    } else if (fixture == Fixture::Mtl || fixture == Fixture::Unknown) && image.source
        != GridImageSource::SystemIcon {
        Some(fixture.label() + ": expected a system file icon"@)
    } else {
        None
    }
}

pub open spec fn text_view(value: Option<String>) -> Option<Seq<char>> {
    match value {
        Some(text) => Some(text@),
        None => None,
    }
}

pub fn check_image(fixture: Fixture, image: &ShellGridImage) -> (fault: Option<String>)
    ensures
        text_view(fault) == image_fault(fixture, *image),
{
    if image.image.width == 0 || image.image.height == 0 {
        let mut message = text_of(fixture.name());
        push_text(&mut message, ": Shell returned an empty image");
        return Some(message);
    }
    if fixture == Fixture::Png && (image.source == GridImageSource::SystemIcon || image.image.width
        < 64 || image.image.height < 64) {
        return Some(text_of("PNG fixture did not produce a real thumbnail"));
    }
    if (fixture == Fixture::Mtl || fixture == Fixture::Unknown) && image.source
        != GridImageSource::SystemIcon {
        let mut message = text_of(fixture.name());
        push_text(&mut message, ": expected a system file icon");
        return Some(message);
    }
    None
}

/// Why an icon is not what its sample must give, if it is not.
pub fn check_icon(fixture: Fixture, icon: &ShellIconRgba) -> (fault: Option<String>)
    ensures
        text_view(fault) == if icon.width == 0 || icon.height == 0 {
            Some(fixture.label() + ": Shell returned an empty direct icon"@)
        } else {
            None
        },
{
    if icon.width == 0 || icon.height == 0 {
        let mut message = text_of(fixture.name());
        push_text(&mut message, ": Shell returned an empty direct icon");
        Some(message)
    } else {
        None
    }
}

// ---- the records ----

/// A record of the report.
pub open spec fn record(
    fixture: Seq<char>,
    pass: Seq<char>,
    requested: u32,
    width: u32,
    height: u32,
    source: Seq<char>,
    thumbnail_error: Option<Seq<char>>,
) -> Seq<char> {
    "{\"fixture\":\""@ + fixture + "\",\"pass\":\""@ + pass + "\",\"requested_px\":"@
        + text::decimal(requested as nat) + ",\"returned_px\":["@ + text::decimal(width as nat)
        + ","@ + text::decimal(height as nat) + "],\"source\":\""@ + source
        + "\",\"thumbnail_error\":"@ + (match thumbnail_error {
        Some(error) => json_string(error),
        None => "null"@,
    }) + "}"@
}

fn write_record(
    fixture: &str,
    pass: &str,
    requested: u32,
    width: u32,
    height: u32,
    source: &str,
    thumbnail_error: &Option<String>,
) -> (line: String)
    ensures
        line@ == record(
            fixture@,
            pass@,
            requested,
            width,
            height,
            source@,
            text_view(*thumbnail_error),
        ),
{
    let mut line = text_of("{\"fixture\":\"");
    push_text(&mut line, fixture);
    push_text(&mut line, "\",\"pass\":\"");
    push_text(&mut line, pass);
    push_text(&mut line, "\",\"requested_px\":");
    push_decimal(&mut line, requested as u64);
    push_text(&mut line, ",\"returned_px\":[");
    push_decimal(&mut line, width as u64);
    push_text(&mut line, ",");
    push_decimal(&mut line, height as u64);
    push_text(&mut line, "],\"source\":\"");
    push_text(&mut line, source);
    push_text(&mut line, "\",\"thumbnail_error\":");
    match thumbnail_error {
        Some(error) => push_text(&mut line, shell_probe_json_string(error.as_str()).as_str()),
        None => push_text(&mut line, "null"),
    }
    push_text(&mut line, "}");
    line
}

/// The record of an image for the grid.
pub fn image_record(fixture: Fixture, pass: Pass, requested: u32, image: &ShellGridImage) -> (line:
    String)
    ensures
        line@ == record(
            fixture.label(),
            pass.label(),
            requested,
            image.image.width,
            image.image.height,
            source_label(image.source),
            text_view(image.thumbnail_error),
        ),
{
    write_record(
        fixture.name(),
        pass.name(),
        requested,
        image.image.width,
        image.image.height,
        source_name(image.source),
        &image.thumbnail_error,
    )
}

/// The record of an icon that was asked for directly.
pub fn icon_record(fixture: Fixture, requested: u32, icon: &ShellIconRgba) -> (line: String)
    ensures
        line@ == record(
            fixture.label(),
            "direct_icon"@,
            requested,
            icon.width,
            icon.height,
            "system_icon"@,
            None,
        ),
{
    write_record(
        fixture.name(),
        "direct_icon",
        requested,
        icon.width,
        icon.height,
        "system_icon",
        &None,
    )
}

/// The image that the report is about: the first small one of the user's file, or of the PNG
/// sample where there is no such file.
pub fn is_primary(user_supplied: bool, fixture: Fixture, requested: u32, pass: Pass) -> (primary:
    bool)
    ensures
        primary == (requested == 128 && pass == Pass::First && (fixture == Fixture::UserSupplied
            || (!user_supplied && fixture == Fixture::Png))),
{
    requested == 128 && pass == Pass::First && (fixture == Fixture::UserSupplied || (!user_supplied
        && fixture == Fixture::Png))
}

/// Texts with a comma between each two.
pub open spec fn with_commas(records: Seq<Seq<char>>) -> Seq<char>
    decreases records.len(),
{
    if records.len() == 0 {
        Seq::empty()
    } else if records.len() == 1 {
        records[0]
    } else {
        with_commas(records.drop_last()) + ","@ + records.last()
    }
}

pub open spec fn texts(records: Seq<String>) -> Seq<Seq<char>> {
    Seq::new(records.len(), |i: int| records[i]@)
}

pub fn join_records(records: &[String]) -> (joined: String)
    ensures
        joined@ == with_commas(texts(records@)),
{
    let mut joined = String::new();
    let n: usize = records.len();
    let mut i: usize = 0;
    assert(texts(records@.subrange(0, 0)).len() == 0);
    while i < n
        invariant
            n == records@.len(),
            i <= n,
            joined@ == with_commas(texts(records@.subrange(0, i as int))),
        decreases n - i,
    {
        proof {
            let next = texts(records@.subrange(0, i + 1));
            assert(next.drop_last() =~= texts(records@.subrange(0, i as int)));
            assert(next.last() == records@[i as int]@);
        }
        if i > 0 {
            push_text(&mut joined, ",");
        }
        push_text(&mut joined, records[i].as_str());
        assert(joined@ =~= with_commas(texts(records@.subrange(0, i + 1))));
        i += 1;
    }
    assert(records@.subrange(0, i as int) =~= records@);
    joined
}

/// The report on a primary image and all records.
pub open spec fn report_text(
    user_supplied: bool,
    image: ShellGridImage,
    records: Seq<Seq<char>>,
) -> Seq<char> {
    "{\"schema_version\":1,\"scenario\":\"shell-thumbnail\",\"scope\":\""@ + (if user_supplied {
        "user_supplied_file"@
    } else {
        "real_windows_shell_temporary_png"@
    }) + "\",\"requested_px\":128,\"returned_px\":["@ + text::decimal(image.image.width as nat)
        + ","@ + text::decimal(image.image.height as nat) + "],\"source\":\""@ + source_label(
        image.source,
    ) + "\",\"icon_fallback\":"@ + (if image.source == GridImageSource::SystemIcon {
        "true"@
    } else {
        "false"@
    }) + ",\"pixel_fingerprint\":\""@ + text::hex_digits(
        bytes_hash(FNV_OFFSET, image.image.pixels@) as nat,
        16,
    )
        + "\",\"cache_probe\":\"first_and_repeated_extraction_without_shell_cache_reset\",\"grid_images\":["@
        + with_commas(records) + "]}\n"@
}

pub fn report(user_supplied: bool, image: &ShellGridImage, records: &[String]) -> (json: String)
    ensures
        json@ == report_text(user_supplied, *image, texts(records@)),
{
    let mut json = text_of(
        "{\"schema_version\":1,\"scenario\":\"shell-thumbnail\",\"scope\":\"",
    );
    push_text(
        &mut json,
        if user_supplied {
            "user_supplied_file"
        } else {
            "real_windows_shell_temporary_png"
        },
    );
    push_text(&mut json, "\",\"requested_px\":128,\"returned_px\":[");
    push_decimal(&mut json, image.image.width as u64);
    push_text(&mut json, ",");
    push_decimal(&mut json, image.image.height as u64);
    push_text(&mut json, "],\"source\":\"");
    push_text(&mut json, source_name(image.source));
    push_text(&mut json, "\",\"icon_fallback\":");
    push_text(
        &mut json,
        if image.source == GridImageSource::SystemIcon {
            "true"
        } else {
            "false"
        },
    );
    push_text(&mut json, ",\"pixel_fingerprint\":\"");
    push_text(&mut json, thumbnail_fingerprint(&image.image).as_str());
    push_text(
        &mut json,
        "\",\"cache_probe\":\"first_and_repeated_extraction_without_shell_cache_reset\",\"grid_images\":[",
    );
    push_text(&mut json, join_records(records).as_str());
    push_text(&mut json, "]}\n");
    json
}

/// The error of a probe, given its own error and that of the clean-up behind it.
pub fn probe_outcome(failure: Option<String>, cleanup: Option<String>) -> (reported: Option<String>)
    ensures
        text_view(reported) == match (failure, cleanup) {
            (Some(error), Some(cleanup)) => Some(
                error@ + "; fixture cleanup failed: "@ + cleanup@,
            ),
            (Some(error), None) => Some(error@),
            (None, Some(cleanup)) => Some(cleanup@),
            (None, None) => None,
        },
{
    match (failure, cleanup) {
        (Some(error), Some(cleanup)) => {
            let mut message = text_of(error.as_str());
            push_text(&mut message, "; fixture cleanup failed: ");
            push_text(&mut message, cleanup.as_str());
            Some(message)
        },
        (Some(error), None) => Some(error),
        (None, Some(cleanup)) => Some(cleanup),
        (None, None) => None,
    }
}

// ---- the run ----

/// What the Shell is asked for next: an image in one of the passes, or the icon itself.
#[derive(Debug, Clone, Copy, PartialEq, Eq, Structural)]
pub struct ProbeRequest {
    pub fixture: Fixture,
    pub requested: u32,
    pub pass: Option<Pass>,
}

/// The samples in the order in which they are asked for; one that the user supplied comes last.
pub open spec fn fixture_at(k: int) -> Fixture {
    if k == 0 {
        Fixture::Png
    } else if k == 1 {
        Fixture::Mtl
    } else if k == 2 {
        Fixture::Unknown
    } else if k == 3 {
        Fixture::Folder
    } else {
        Fixture::UserSupplied
    }
}

/// For each sample both sizes, and for each size two images and the icon.
pub open spec fn request_at(k: int) -> ProbeRequest {
    ProbeRequest {
        fixture: fixture_at(k / 6),
        requested: if k % 6 < 3 {
            128
        } else {
            256
        },
        pass: if k % 3 == 0 {
            Some(Pass::First)
        } else if k % 3 == 1 {
            Some(Pass::Repeat)
        } else {
            None
        },
    }
}

pub open spec fn request_count(user_supplied: bool) -> int {
    if user_supplied {
        30
    } else {
        24
    }
}

/// The number of the request whose image the report is about.
pub open spec fn primary_request(user_supplied: bool) -> int {
    if user_supplied {
        24
    } else {
        0
    }
}

/// A run of the probe.
#[derive(Debug)]
pub struct ProbeRun {
    user_supplied: bool,
    answered: u32,
    records: Vec<String>,
    primary: Option<ShellGridImage>,
}

/// What a run knows: how many requests were answered, the records, and the primary image.
pub struct Progress {
    pub user_supplied: bool,
    pub answered: int,
    pub records: Seq<Seq<char>>,
    pub primary: Option<ShellGridImage>,
}

impl View for ProbeRun {
    type V = Progress;

    closed spec fn view(&self) -> Progress {
        Progress {
            user_supplied: self.user_supplied,
            answered: self.answered as int,
            records: texts(self.records@),
            primary: self.primary,
        }
    }
}

impl Progress {
    /// Each answer has left its record, and the primary image is there once it was asked for.
    pub open spec fn valid(self) -> bool {
        &&& 0 <= self.answered <= request_count(self.user_supplied)
        &&& self.records.len() == self.answered
        &&& self.primary is Some <==> self.answered > primary_request(self.user_supplied)
    }

    /// The run waits for an image, or for an icon.
    pub open spec fn waits_for(self, image: bool) -> bool {
        self.answered < request_count(self.user_supplied) && request_at(self.answered).pass is Some
            == image
    }
}

impl ProbeRun {
    pub fn new(user_supplied: bool) -> (run: ProbeRun)
        ensures
            run@ == (Progress {
                user_supplied,
                answered: 0,
                records: Seq::empty(),
                primary: None,
            }),
            run@.valid(),
    {
        let run = ProbeRun { user_supplied, answered: 0, records: Vec::new(), primary: None };
        assert(run@.records =~= Seq::empty());
        run
    }

    /// The next request, until all are answered.
    pub fn request(&self) -> (request: Option<ProbeRequest>)
        requires
            self@.valid(),
        ensures
            request == if self@.answered < request_count(self@.user_supplied) {
                Some(request_at(self@.answered))
            } else {
                None
            },
    {
        let count: u32 = if self.user_supplied {
            30
        } else {
            24
        };
        if self.answered >= count {
            return None;
        }
        let fixture = match self.answered / 6 {
            0 => Fixture::Png,
            1 => Fixture::Mtl,
            2 => Fixture::Unknown,
            3 => Fixture::Folder,
            _ => Fixture::UserSupplied,
        };
        let requested: u32 = if self.answered % 6 < 3 {
            128
        } else {
            256
        };
        let pass = match self.answered % 3 {
            0 => Some(Pass::First),
            1 => Some(Pass::Repeat),
            _ => None,
        };
        Some(ProbeRequest { fixture, requested, pass })
    }

    /// Takes the image that was asked for. One that its sample must not give ends the run.
    pub fn image(&mut self, image: ShellGridImage) -> (fault: Option<String>)
        requires
            old(self)@.valid(),
            old(self)@.waits_for(true),
        ensures
            ({
                let before = old(self)@;
                let asked = request_at(before.answered);
                &&& text_view(fault) == image_fault(asked.fixture, image)
                &&& final(self)@.valid()
                &&& final(self)@ == if fault is Some {
                    before
                } else {
                    Progress {
                        answered: before.answered + 1,
                        records: before.records.push(
                            record(
                                asked.fixture.label(),
                                (asked.pass->0).label(),
                                asked.requested,
                                image.image.width,
                                image.image.height,
                                source_label(image.source),
                                text_view(image.thumbnail_error),
                            ),
                        ),
                        primary: if before.answered == primary_request(before.user_supplied) {
                            Some(image)
                        } else {
                            before.primary
                        },
                        ..before
                    }
                }
            }),
    {
        let ghost before = self@;
        let asked = match self.request() {
            Some(asked) => asked,
            None => {
                return None;
            },
        };
        let pass = match asked.pass {
            Some(pass) => pass,
            None => {
                return None;
            },
        };
        if let Some(fault) = check_image(asked.fixture, &image) {
            return Some(fault);
        }
        let line = image_record(asked.fixture, pass, asked.requested, &image);
        let ghost shown = line@;
        let ghost known = self.records@;
        self.records.push(line);
        assert(texts(self.records@) =~= texts(known).push(shown));
        if is_primary(self.user_supplied, asked.fixture, asked.requested, pass) {
            self.primary = Some(image);
        }
        self.answered = self.answered + 1;
        None
    }

    /// Takes the icon that was asked for. An empty one ends the run.
    pub fn icon(&mut self, icon: &ShellIconRgba) -> (fault: Option<String>)
        requires
            old(self)@.valid(),
            old(self)@.waits_for(false),
        ensures
            ({
                let before = old(self)@;
                let asked = request_at(before.answered);
                &&& text_view(fault) == if icon.width == 0 || icon.height == 0 {
                    Some(asked.fixture.label() + ": Shell returned an empty direct icon"@)
                } else {
                    None
                }
                &&& final(self)@.valid()
                &&& final(self)@ == if fault is Some {
                    before
                } else {
                    Progress {
                        answered: before.answered + 1,
                        records: before.records.push(
                            record(
                                asked.fixture.label(),
                                "direct_icon"@,
                                asked.requested,
                                icon.width,
                                icon.height,
                                "system_icon"@,
                                None,
                            ),
                        ),
                        ..before
                    }
                }
            }),
    {
        let asked = match self.request() {
            Some(asked) => asked,
            None => {
                return None;
            },
        };
        if let Some(fault) = check_icon(asked.fixture, icon) {
            return Some(fault);
        }
        let line = icon_record(asked.fixture, asked.requested, icon);
        let ghost shown = line@;
        let ghost known = self.records@;
        self.records.push(line);
        assert(texts(self.records@) =~= texts(known).push(shown));
        self.answered = self.answered + 1;
        None
    }

    /// The report of a run in which every request was answered.
    pub fn finish(&self) -> (json: String)
        requires
            self@.valid(),
            self@.answered == request_count(self@.user_supplied),
        ensures
            json@ == report_text(self@.user_supplied, self@.primary->0, self@.records),
    {
        match &self.primary {
            Some(image) => report(self.user_supplied, image, self.records.as_slice()),
            None => String::new(),
        }
    }
}

/// One more character of a text is quoted by itself, between the quotes of the whole.
pub proof fn law_characters_are_quoted_one_by_one(
    value: &str,
    c: char,
    more: &str,
    before: String,
    after: String,
)
    requires
        more@ == value@.push(c),
        call_ensures(shell_probe_json_string, (value,), before),
        call_ensures(shell_probe_json_string, (more,), after),
    ensures
        before@.len() >= 2 && before@[0] == '"' && before@.last() == '"',
        value@.len() == 0 ==> before@ == seq!['"', '"'],
        c == '"' || c == '\\' ==> after@ == before@.drop_last().push('\\').push(c).push('"'),
        0x20 <= c as u32 <= 0x7e && c != '"' && c != '\\' ==> after@ == before@.drop_last().push(
            c,
        ).push('"'),
        c as u32 <= 0x1f ==> after@.len() > before@.len() + 1,
{
    assert(more@.drop_last() =~= value@);
    let inner = quoted_chars(value@);
    assert(before@.drop_last() =~= seq!['"'] + inner);
    if c == '"' || c == '\\' {
        assert(after@ =~= before@.drop_last().push('\\').push(c).push('"'));
    } else if 0x20 <= c as u32 <= 0x7e {
        assert(after@ =~= before@.drop_last().push(c).push('"'));
    }
}

/// An image is faulty where it is empty; where a picture has no thumbnail of some size; and where a
/// file without one shows anything but the icon of the system.
pub proof fn law_faults_are_found(
    fixture: Fixture,
    image: ShellGridImage,
    fault: Option<String>,
    icon: ShellIconRgba,
    icon_fault: Option<String>,
)
    requires
        call_ensures(check_image, (fixture, &image), fault),
        call_ensures(check_icon, (fixture, &icon), icon_fault),
    ensures
        image.image.width == 0 || image.image.height == 0 ==> fault is Some,
        image.image.width > 0 && image.image.height > 0 ==> {
            &&& fixture is Png ==> (fault is None <==> image.source != GridImageSource::SystemIcon
                && image.image.width >= 64 && image.image.height >= 64)
            &&& fixture is Mtl || fixture is Unknown ==> (fault is None <==> image.source
                == GridImageSource::SystemIcon)
            &&& fixture is Folder || fixture is UserSupplied ==> fault is None
        },
        icon_fault is None <==> icon.width > 0 && icon.height > 0,
{
}

/// One more record stands behind the others, after a comma.
pub proof fn law_records_stand_behind_each_other(
    records: &[String],
    record: String,
    more: &[String],
    before: String,
    after: String,
)
    requires
        more@ == records@.push(record),
        call_ensures(join_records, (records,), before),
        call_ensures(join_records, (more,), after),
    ensures
        records@.len() == 0 ==> before@.len() == 0 && after@ == record@,
        records@.len() > 0 ==> after@ == before@.push(',') + record@,
{
    assert(texts(more@).drop_last() =~= texts(records@));
    assert(texts(more@).last() == record@);
    reveal_strlit(",");
    if records@.len() > 0 {
        assert(after@ =~= before@.push(',') + record@);
    } else {
        assert(texts(more@)[0] == record@);
    }
}

/// A failure is reported before a failure of the clean-up, and neither is passed over.
pub proof fn law_failures_are_reported(
    failure: Option<String>,
    cleanup: Option<String>,
    reported: Option<String>,
)
    requires
        call_ensures(probe_outcome, (failure, cleanup), reported),
    ensures
        reported is None <==> failure is None && cleanup is None,
        failure is Some ==> failure->0@.is_prefix_of(reported->0@),
        failure is Some && cleanup is None ==> reported->0@ == failure->0@,
        failure is None && cleanup is Some ==> reported->0@ == cleanup->0@,
        failure is Some && cleanup is Some ==> reported->0@ == failure->0@
            + "; fixture cleanup failed: "@ + cleanup->0@,
{
    if failure is Some {
        assert(reported->0@.subrange(0, failure->0@.len() as int) =~= failure->0@);
    }
}

/// A run asks for both sizes of each fixture, the image twice and then the icon, and for the file of
/// the user last where there is one; an answer without a fault leads to the next request.
pub proof fn law_every_fixture_is_asked_for(
    run: ProbeRun,
    request: Option<ProbeRequest>,
)
    requires
        run@.valid(),
        call_ensures(ProbeRun::request, (&run,), request),
    ensures
        request is None <==> run@.answered == if run@.user_supplied {
            30int
        } else {
            24int
        },
        request matches Some(asked) ==> {
            &&& run@.answered < 6 ==> asked.fixture is Png
            &&& 6 <= run@.answered < 12 ==> asked.fixture is Mtl
            &&& 12 <= run@.answered < 18 ==> asked.fixture is Unknown
            &&& 18 <= run@.answered < 24 ==> asked.fixture is Folder
            &&& 24 <= run@.answered ==> asked.fixture is UserSupplied && run@.user_supplied
            &&& asked.requested == 128 <==> run@.answered % 6 < 3
            &&& asked.requested == 256 <==> run@.answered % 6 >= 3
            &&& asked.pass is None <==> run@.answered % 3 == 2
            &&& asked.pass == Some(Pass::First) <==> run@.answered % 3 == 0
        },
{
}

/// A faulty answer changes nothing; any other adds one record behind those there are and leads to the
/// next request. The image that the report shows is that of the file of the user where there is one, and
/// else that of the picture.
pub proof fn law_answers_add_one_record(
    run: &mut ProbeRun,
    image: ShellGridImage,
    fault: Option<String>,
    user_supplied: bool,
    fixture: Fixture,
    requested: u32,
    pass: Pass,
    primary: bool,
)
    requires
        old(run)@.valid(),
        old(run)@.waits_for(true),
        call_ensures(ProbeRun::image, (run, image), fault),
        call_ensures(is_primary, (user_supplied, fixture, requested, pass), primary),
    ensures
        fault is Some ==> final(run)@ == old(run)@,
        fault is None ==> {
            &&& final(run)@.answered == old(run)@.answered + 1
            &&& final(run)@.records.len() == old(run)@.records.len() + 1
            &&& forall|i: int|
                0 <= i < old(run)@.records.len() ==> final(run)@.records[i] == #[trigger] old(run)@.records[i]
            &&& final(run)@.user_supplied == old(run)@.user_supplied
            &&& !old(run)@.user_supplied && old(run)@.answered == 0 ==> final(run)@.primary == Some(
                image,
            )
            &&& old(run)@.user_supplied && old(run)@.answered == 24 ==> final(run)@.primary == Some(
                image,
            )
            &&& old(run)@.primary is Some ==> final(run)@.primary == old(run)@.primary
        },
        image.image.width == 0 || image.image.height == 0 ==> fault is Some,
        primary <==> requested == 128 && pass is First && (fixture is UserSupplied || (!user_supplied
            && fixture is Png)),
{
}

} // verus!
