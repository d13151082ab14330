//! Images that the Shell gives for files: icons, icons of file types, thumbnails.
use vstd::prelude::*;

use crate::errors;
use crate::errors::{ErrorKind, IoError};
use crate::text;
use crate::text::{encode_text, push_decimal, push_signed_decimal, push_text, text_of};
use crate::wide;
use crate::wide::{lower_units, push_units};
use crate::winpath;
use crate::winpath::{extension_of, unit_is_sep};

verus! {

pub const FILE_ATTRIBUTE_DIRECTORY: u32 = 0x10;

pub const FILE_ATTRIBUTE_NORMAL: u32 = 0x80;

// ---- icons of file types ----

/// What the icon of an entry depends on, where only its type counts.
#[derive(Debug, Clone, PartialEq, Eq, Hash)]
pub enum ShellTypeIconKey {
    Directory,
    Extension(Vec<u16>),
    GenericFile,
}

/// The same as a mathematical value.
pub enum TypeIcon {
    Directory,
    Extension(Seq<u16>),
    GenericFile,
}

impl View for ShellTypeIconKey {
    type V = TypeIcon;

    open spec fn view(&self) -> TypeIcon {
        match self {
            ShellTypeIconKey::Directory => TypeIcon::Directory,
            ShellTypeIconKey::Extension(extension) => TypeIcon::Extension(extension@),
            ShellTypeIconKey::GenericFile => TypeIcon::GenericFile,
        }
    }
}

/// The key of an entry: extensions count without regard to ASCII case.
pub open spec fn type_icon(path: Seq<u16>, directory: bool) -> TypeIcon {
    if directory {
        TypeIcon::Directory
    } else {
        match winpath::path_extension(path) {
            Some(extension) if extension.len() > 0 => TypeIcon::Extension(
                wide::ascii_lower(extension),
            ),
            _ => TypeIcon::GenericFile,
        }
    }
}

/// The name that stands for a type when its icon is looked up.
pub open spec fn query_name(key: TypeIcon) -> Seq<u16> {
    match key {
        TypeIcon::Directory => text::utf16_encoded("asterfiles-folder"@),
        TypeIcon::Extension(extension) => text::utf16_encoded("asterfiles."@) + extension,
        TypeIcon::GenericFile => text::utf16_encoded("asterfiles-file"@),
    }
}

impl ShellTypeIconKey {
    pub fn for_entry(path: &[u16], directory: bool) -> (key: ShellTypeIconKey)
        ensures
            key@ == type_icon(path@, directory),
    {
        if directory {
            return ShellTypeIconKey::Directory;
        }
        match extension_of(path) {
            Some(extension) => {
                if extension.len() == 0 {
                    ShellTypeIconKey::GenericFile
                } else {
                    ShellTypeIconKey::Extension(lower_units(extension.as_slice()))
                }
            },
            None => ShellTypeIconKey::GenericFile,
        }
    }

    pub fn query_path(&self) -> (path: Vec<u16>)
        ensures
            path@ == query_name(self@),
    {
        match self {
            ShellTypeIconKey::Directory => encode_text("asterfiles-folder"),
            ShellTypeIconKey::Extension(extension) => {
                let mut name = encode_text("asterfiles.");
                push_units(&mut name, extension.as_slice());
                name
            },
            ShellTypeIconKey::GenericFile => encode_text("asterfiles-file"),
        }
    }

    /// The name and the attributes with which the icon is looked up.
    pub fn lookup(&self) -> (query: (Vec<u16>, u32))
        ensures
            query.0@ == query_name(self@),
            query.1 == if self@ is Directory {
                FILE_ATTRIBUTE_DIRECTORY
            } else {
                FILE_ATTRIBUTE_NORMAL
            },
    {
        let attributes: u32 = match self {
            ShellTypeIconKey::Directory => FILE_ATTRIBUTE_DIRECTORY,
            _ => FILE_ATTRIBUTE_NORMAL,
        };
        (self.query_path(), attributes)
    }
}

/// The attributes that are assumed of a path that cannot be read.
pub fn fallback_attributes(path: &[u16]) -> (attributes: u32)
    ensures
        attributes == if winpath::path_extension(path@) is None || (path@.len() > 0
            && winpath::is_sep(path@.last())) {
            FILE_ATTRIBUTE_DIRECTORY
        } else {
            FILE_ATTRIBUTE_NORMAL
        },
{
    let n: usize = path.len();
    if extension_of(path).is_none() || (n > 0 && unit_is_sep(path[n - 1])) {
        FILE_ATTRIBUTE_DIRECTORY
    } else {
        FILE_ATTRIBUTE_NORMAL
    }
}

// ---- pixels ----

/// An image with four bytes for each pixel: red, green, blue, opacity.
#[derive(Debug, Clone, PartialEq, Eq)]
pub struct ShellIconRgba {
    pub width: u32,
    pub height: u32,
    pub pixels: Vec<u8>,
}

/// Red and blue of every pixel in each other's place.
pub open spec fn swapped(pixels: Seq<u8>) -> Seq<u8> {
    Seq::new(
        pixels.len(),
        |i: int|
            if i % 4 == 0 && i + 2 < pixels.len() {
                pixels[i + 2]
            } else if i % 4 == 2 {
                pixels[i - 2]
            } else {
                pixels[i]
            },
    )
}

/// The number of bytes of an image.
pub open spec fn image_bytes(width: int, height: int) -> int {
    width * height * 4
}

/// The image that the pixels show, where there are as many as the sizes ask for.
pub open spec fn is_image(
    result: Result<ShellIconRgba, IoError>,
    width: u32,
    height: u32,
    pixels: Seq<u8>,
) -> bool {
    let expected = image_bytes(width as int, height as int);
    match result {
        Ok(icon) => expected <= u32::MAX && pixels.len() == expected && icon.width == width
            && icon.height == height && icon.pixels@ == swapped(pixels),
        Err(error) => if width * height > u32::MAX || expected > u32::MAX {
            errors::fails_with(error, ErrorKind::Other, "Shell icon dimensions overflow"@)
        } else {
            pixels.len() != expected && errors::fails_with(
                error,
                ErrorKind::Other,
                "Shell icon pixel buffer has "@ + text::decimal(pixels.len())
                    + " bytes, expected "@ + text::decimal(expected as nat),
            )
        },
    }
}

impl ShellIconRgba {
    /// The image whose pixels hold blue first.
    pub fn from_bgra(width: u32, height: u32, pixels: Vec<u8>) -> (result: Result<
        ShellIconRgba,
        IoError,
    >)
        ensures
            is_image(result, width, height, pixels@),
    {
        let expected: u32 = match width.checked_mul(height) {
            Some(count) => match count.checked_mul(4) {
                Some(bytes) => bytes,
                None => {
                    return Err(IoError::new(ErrorKind::Other, "Shell icon dimensions overflow"));
                },
            },
            None => {
                return Err(IoError::new(ErrorKind::Other, "Shell icon dimensions overflow"));
            },
        };
        let n: usize = pixels.len();
        if n != expected as usize {
            let mut message = text_of("Shell icon pixel buffer has ");
            push_decimal(&mut message, n as u64);
            push_text(&mut message, " bytes, expected ");
            push_decimal(&mut message, expected as u64);
            return Err(IoError { kind: ErrorKind::Other, code: None, message });
        }
        let mut pixels = pixels;
        let ghost before = pixels@;
        let mut i: usize = 0;
        while i < n
            invariant
                n == before.len(),
                n == pixels@.len(),
                n as int % 4 == 0,
                i as int % 4 == 0,
                i <= n,
                forall|j: int| 0 <= j < i ==> pixels@[j] == swapped(before)[j],
                forall|j: int| i <= j < n ==> pixels@[j] == before[j],
            decreases n - i,
        {
            let first: u8 = pixels[i];
            let third: u8 = pixels[i + 2];
            pixels.set(i, third);
            pixels.set(i + 2, first);
            i += 4;
        }
        assert(pixels@ =~= swapped(before));
        Ok(ShellIconRgba { width, height, pixels })
    }
}

/// The size of a bitmap, given how many bytes of its description were read, its width and its
/// height, which is negative where its rows run from the top.
pub fn bitmap_size(read: i32, width: i32, height: i32) -> (size: Option<(u32, u32)>)
    ensures
        size == if read == 0 || width <= 0 || height == 0 {
            None::<(u32, u32)>
        } else {
            Some((width as u32, if height < 0 {
                -(height as int)
            } else {
                height as int
            } as u32))
        },
{
    if read == 0 || width <= 0 || height == 0 {
        return None;
    }
    let rows: i64 = if height < 0 {
        -(height as i64)
    } else {
        height as i64
    };
    Some((width as u32, rows as u32))
}

/// The image of a bitmap, of which this many rows were read.
pub fn bitmap_to_rgba(lines: i32, width: u32, height: u32, pixels: Vec<u8>) -> (result: Result<
    ShellIconRgba,
    IoError,
>)
    ensures
        if lines != height {
            result matches Err(error) && errors::fails_with(
                error,
                ErrorKind::Other,
                "Windows Shell thumbnail pixels unavailable"@,
            )
        } else {
            is_image(result, width, height, pixels@)
        },
{
    if lines < 0 || lines as u32 != height {
        return Err(IoError::new(ErrorKind::Other, "Windows Shell thumbnail pixels unavailable"));
    }
    ShellIconRgba::from_bgra(width, height, pixels)
}

/// The bytes of an icon with the system's dimensions.
pub fn icon_buffer_len(width: i32, height: i32) -> (result: Result<usize, IoError>)
    ensures
        match result {
            Ok(bytes) => width > 0 && height > 0 && bytes == image_bytes(
                width as int,
                height as int,
            ),
            Err(error) => if width <= 0 || height <= 0 {
                errors::fails_with(
                    error,
                    ErrorKind::Other,
                    "GetSystemMetrics returned invalid icon dimensions "@ + text::signed_decimal(
                        width as int,
                    ) + "x"@ + text::signed_decimal(height as int),
                )
            } else {
                image_bytes(width as int, height as int) > usize::MAX && errors::fails_with(
                    error,
                    ErrorKind::Other,
                    "Shell icon dimensions overflow"@,
                )
            },
        },
{
    if width <= 0 || height <= 0 {
        let mut message = text_of("GetSystemMetrics returned invalid icon dimensions ");
        push_signed_decimal(&mut message, width as i64);
        push_text(&mut message, "x");
        push_signed_decimal(&mut message, height as i64);
        return Err(IoError { kind: ErrorKind::Other, code: None, message });
    }
    match (width as usize).checked_mul(height as usize) {
        Some(count) => match count.checked_mul(4) {
            Some(bytes) => Ok(bytes),
            None => Err(IoError::new(ErrorKind::Other, "Shell icon dimensions overflow")),
        },
        None => Err(IoError::new(ErrorKind::Other, "Shell icon dimensions overflow")),
    }
}

// ---- thumbnails ----

#[derive(Debug, Clone, Copy, PartialEq, Eq, Structural)]
pub enum ThumbnailSource {
    Cache,
    Provider,
}

#[derive(Debug, Clone)]
pub struct ShellThumbnailRgba {
    pub image: ShellIconRgba,
    pub source: ThumbnailSource,
}

#[derive(Debug, Clone, Copy, PartialEq, Eq, Structural)]
pub enum GridImageSource {
    Thumbnail(ThumbnailSource),
    SystemIcon,
}

#[derive(Debug, Clone)]
pub struct ShellGridImage {
    pub image: ShellIconRgba,
    pub source: GridImageSource,
    pub thumbnail_error: Option<String>,
}

/// The flags for a thumbnail: from the cache, or scaled up by its provider.
pub fn thumbnail_flags(cache_only: bool) -> (flags: i32)
    ensures
        flags == if cache_only {
            0x19i32
        } else {
            0x109i32
        },
{
    if cache_only {
        0x19
    } else {
        0x109
    }
}

/// The flags for the icon of a file.
pub const ICON_FLAGS: i32 = 5;

/// A thumbnail, with where it comes from.
pub fn thumbnail_from(image: ShellIconRgba, cache_only: bool) -> (thumbnail: ShellThumbnailRgba)
    ensures
        thumbnail.image == image,
        thumbnail.source == if cache_only {
            ThumbnailSource::Cache
        } else {
            ThumbnailSource::Provider
        },
{
    ShellThumbnailRgba {
        image,
        source: if cache_only {
            ThumbnailSource::Cache
        } else {
            ThumbnailSource::Provider
        },
    }
}

/// The size of an icon as the Shell takes it.
pub fn shell_icon_rgba_at_size(size: u32) -> (result: Result<i32, IoError>)
    ensures
        match result {
            Ok(side) => 0 < size <= i32::MAX && side == size,
            Err(error) => (size == 0 || size > i32::MAX) && errors::fails_with(
                error,
                ErrorKind::InvalidInput,
                "invalid Shell icon size"@,
            ),
        },
{
    if size == 0 || size > 0x7fff_ffff {
        return Err(IoError::new(ErrorKind::InvalidInput, "invalid Shell icon size"));
    }
    Ok(size as i32)
}

/// How an image for the grid is found.
#[derive(Debug)]
pub enum GridStep {
    Ready(ShellGridImage),
    /// Ask the provider of thumbnails.
    AskProvider,
    /// Ask for the icon; the text says why there is no thumbnail.
    AskIcon(String),
}

/// A cached thumbnail is good enough when its longer side has the size that is asked for.
pub open spec fn large_enough(thumbnail: ShellThumbnailRgba, size: u32) -> bool {
    thumbnail.image.width >= size || thumbnail.image.height >= size
}

/// An image that shows a thumbnail.
pub open spec fn shows_thumbnail(image: ShellGridImage, thumbnail: ShellThumbnailRgba) -> bool {
    image.image == thumbnail.image && image.source == GridImageSource::Thumbnail(thumbnail.source)
        && image.thumbnail_error is None
}

fn thumbnail_image(thumbnail: ShellThumbnailRgba) -> (image: ShellGridImage)
    ensures
        shows_thumbnail(image, thumbnail),
{
    ShellGridImage {
        image: thumbnail.image,
        source: GridImageSource::Thumbnail(thumbnail.source),
        thumbnail_error: None,
    }
}

/// The first step: what the cache has.
pub fn grid_from_cache(cached: Option<ShellThumbnailRgba>, size: u32) -> (step: GridStep)
    ensures
        match cached {
            Some(thumbnail) if large_enough(thumbnail, size) => step matches GridStep::Ready(image)
                && shows_thumbnail(image, thumbnail),
            _ => step is AskProvider,
        },
{
    match cached {
        Some(thumbnail) => {
            if thumbnail.image.width >= size || thumbnail.image.height >= size {
                GridStep::Ready(thumbnail_image(thumbnail))
            } else {
                GridStep::AskProvider
            }
        },
        None => GridStep::AskProvider,
    }
}

/// The second step: what the provider gave, of whatever size.
pub fn grid_from_provider(provided: Result<ShellThumbnailRgba, IoError>) -> (step: GridStep)
    ensures
        match provided {
            Ok(thumbnail) => step matches GridStep::Ready(image) && shows_thumbnail(
                image,
                thumbnail,
            ),
            Err(error) => step == GridStep::AskIcon(error.message),
        },
{
    match provided {
        Ok(thumbnail) => GridStep::Ready(thumbnail_image(thumbnail)),
        Err(error) => GridStep::AskIcon(error.message),
    }
}

/// The last step: the icon in place of the thumbnail.
pub fn grid_from_icon(thumbnail_error: String, icon: Result<ShellIconRgba, IoError>) -> (result:
    Result<ShellGridImage, IoError>)
    ensures
        match (result, icon) {
            (Ok(image), Ok(icon)) => image.image == icon && image.source
                == GridImageSource::SystemIcon && image.thumbnail_error == Some(thumbnail_error),
            (Err(error), Err(icon_error)) => errors::fails_with(
                error,
                ErrorKind::Other,
                "Shell thumbnail unavailable: "@ + thumbnail_error@
                    + "; system icon unavailable: "@ + icon_error.message@,
            ),
            _ => false,
        },
{
    match icon {
        Ok(image) => Ok(
            ShellGridImage {
                image,
                source: GridImageSource::SystemIcon,
                thumbnail_error: Some(thumbnail_error),
            },
        ),
        Err(icon_error) => {
            let mut message = text_of("Shell thumbnail unavailable: ");
            push_text(&mut message, thumbnail_error.as_str());
            push_text(&mut message, "; system icon unavailable: ");
            push_text(&mut message, icon_error.message.as_str());
            Err(IoError { kind: ErrorKind::Other, code: None, message })
        },
    }
}

// ---- laws ----

/// Swapping red and blue twice gives the pixels back.
pub proof fn law_swapping_twice_changes_nothing(pixels: Seq<u8>)
    requires
        pixels.len() % 4 == 0,
    ensures
        swapped(swapped(pixels)) == pixels,
{
    assert forall|i: int| 0 <= i < pixels.len() implies swapped(swapped(pixels))[i] == pixels[i] by {
        if i % 4 == 0 {
            assert((i + 2) % 4 == 2);
        } else if i % 4 == 2 {
            assert((i - 2) % 4 == 0);
        }
    }
    assert(swapped(swapped(pixels)) =~= pixels);
}

/// Entries with the same extension have the same icon, wherever they lie.
pub proof fn law_type_icons_ignore_the_place(a: Seq<u16>, b: Seq<u16>)
    requires
        winpath::path_extension(a) is Some,
        winpath::path_extension(b) is Some,
        wide::ascii_lower(winpath::path_extension(a)->0) == wide::ascii_lower(
            winpath::path_extension(b)->0,
        ),
    ensures
        type_icon(a, false) == type_icon(b, false),
{
    let first = winpath::path_extension(a)->0;
    let second = winpath::path_extension(b)->0;
    assert(wide::ascii_lower(first).len() == first.len());
    assert(wide::ascii_lower(second).len() == second.len());
}

/// The image of a bitmap has its size, and of each pixel red and blue change places while green and
/// opacity stay; it is there exactly where there are four bytes for each pixel.
pub proof fn law_red_and_blue_change_places(
    width: u32,
    height: u32,
    pixels: Vec<u8>,
    result: Result<ShellIconRgba, IoError>,
    at: int,
)
    requires
        call_ensures(ShellIconRgba::from_bgra, (width, height, pixels), result),
        0 <= at,
        4 * at + 3 < pixels@.len(),
    ensures
        result is Ok <==> pixels@.len() == width * height * 4 && pixels@.len() <= u32::MAX,
        result matches Ok(icon) ==> {
            &&& icon.width == width && icon.height == height
            &&& icon.pixels@.len() == pixels@.len()
            &&& icon.pixels@[4 * at] == pixels@[4 * at + 2]
            &&& icon.pixels@[4 * at + 1] == pixels@[4 * at + 1]
            &&& icon.pixels@[4 * at + 2] == pixels@[4 * at]
            &&& icon.pixels@[4 * at + 3] == pixels@[4 * at + 3]
        },
{
    assert(width * height * 4 == image_bytes(width as int, height as int));
    assert((4 * at) % 4 == 0 && (4 * at + 1) % 4 == 1 && (4 * at + 2) % 4 == 2 && (4 * at + 3) % 4
        == 3);
    if result is Err && pixels@.len() == width * height * 4 {
        assert(width * height <= u32::MAX || width * height * 4 > u32::MAX);
    }
}

/// A bitmap has a size where it could be read and is not empty; it may be stored upside down. Its
/// pixels are taken only where every line was read.
pub proof fn law_every_line_is_read(
    read: i32,
    width: i32,
    height: i32,
    size: Option<(u32, u32)>,
    lines: i32,
    w: u32,
    h: u32,
    pixels: Vec<u8>,
    whole: Result<ShellIconRgba, IoError>,
    image: Result<ShellIconRgba, IoError>,
)
    requires
        height > i32::MIN,
        call_ensures(bitmap_size, (read, width, height), size),
        call_ensures(bitmap_to_rgba, (lines, w, h, pixels), image),
        call_ensures(ShellIconRgba::from_bgra, (w, h, pixels), whole),
    ensures
        size is Some <==> read != 0 && width > 0 && height != 0,
        size matches Some((columns, rows)) ==> columns == width && (rows == height || rows
            == -height),
        lines != h ==> image is Err,
        lines == h ==> (image is Ok <==> whole is Ok),
        lines == h && image is Ok ==> image->Ok_0.width == w && image->Ok_0.height == h
            && image->Ok_0.pixels@ == whole->Ok_0.pixels@,
{
}

/// The icon of a type is that of folders for every folder and that of its extension, in lower case, for
/// a file that has one; each of the three kinds is looked up under a name of its own.
pub proof fn law_entries_have_the_icon_of_their_type(
    path: &[u16],
    directory: bool,
    key: ShellTypeIconKey,
    extension: Option<Vec<u16>>,
    query: (Vec<u16>, u32),
    name: Vec<u16>,
)
    requires
        call_ensures(ShellTypeIconKey::for_entry, (path, directory), key),
        call_ensures(extension_of, (path,), extension),
        call_ensures(ShellTypeIconKey::lookup, (&key,), query),
        call_ensures(ShellTypeIconKey::query_path, (&key,), name),
    ensures
        key is Directory <==> directory,
        key is Extension <==> !directory && extension is Some && extension->0@.len() > 0,
        key matches ShellTypeIconKey::Extension(own) ==> own@.len() == extension->0@.len() && forall|
            i: int,
        |
            0 <= i < own@.len() ==> !(0x41 <= #[trigger] own@[i] <= 0x5a) && (own@[i]
                == extension->0@[i] || own@[i] == extension->0@[i] + 0x20),
        key matches ShellTypeIconKey::Extension(own) ==> name@.len() > own@.len()
            && name@.subrange(name@.len() - own@.len(), name@.len() as int) == own@,
        query.0@ == name@,
        query.1 == 0x10 <==> directory,
        query.1 == 0x80 <==> !directory,
{
    if key is Extension {
        let own = key->Extension_0;
        let head = text::utf16_encoded("asterfiles."@);
        reveal_strlit("asterfiles.");
        assert("asterfiles."@.len() > 0);
        assert(text::char_utf16("asterfiles."@[0]).len() > 0);
        assert(head.len() > 0) by {
            reveal_with_fuel(text::utf16_encoded, 2);
        }
        assert(name@.subrange(name@.len() - own@.len(), name@.len() as int) =~= own@);
    }
}

/// A thumbnail from the cache is shown where it is large enough in one direction; else the provider is
/// asked, and where it fails the icon of the system stands in, with the reason kept.
pub proof fn law_an_icon_stands_in_for_a_thumbnail(
    cached: Option<ShellThumbnailRgba>,
    size: u32,
    first: GridStep,
    provided: Result<ShellThumbnailRgba, IoError>,
    second: GridStep,
    reason: String,
    icon: Result<ShellIconRgba, IoError>,
    last: Result<ShellGridImage, IoError>,
)
    requires
        call_ensures(grid_from_cache, (cached, size), first),
        call_ensures(grid_from_provider, (provided,), second),
        call_ensures(grid_from_icon, (reason, icon), last),
    ensures
        first is Ready <==> cached is Some && (cached->0.image.width >= size
            || cached->0.image.height >= size),
        first is AskProvider <==> !(first is Ready),
        first matches GridStep::Ready(image) ==> image.image == cached->0.image
            && image.thumbnail_error is None && image.source == GridImageSource::Thumbnail(
            cached->0.source,
        ),
        second is Ready <==> provided is Ok,
        second matches GridStep::Ready(image) ==> image.image == provided->Ok_0.image
            && image.thumbnail_error is None,
        second is AskIcon <==> provided is Err,
        second matches GridStep::AskIcon(message) ==> message == provided->Err_0.message,
        last is Ok <==> icon is Ok,
        last matches Ok(image) ==> image.image == icon->Ok_0 && image.source
            == GridImageSource::SystemIcon && image.thumbnail_error == Some(reason),
{
}

/// A thumbnail says where it is from, and the cache alone is asked where only it is wanted.
pub proof fn law_thumbnails_say_where_they_are_from(
    image: ShellIconRgba,
    cache_only: bool,
    flags: i32,
    thumbnail: ShellThumbnailRgba,
    size: u32,
    side: Result<i32, IoError>,
)
    requires
        call_ensures(thumbnail_flags, (cache_only,), flags),
        call_ensures(thumbnail_from, (image, cache_only), thumbnail),
        call_ensures(shell_icon_rgba_at_size, (size,), side),
    ensures
        flags == 0x19 <==> cache_only,
        flags == 0x109 <==> !cache_only,
        thumbnail.image == image,
        thumbnail.source == ThumbnailSource::Cache <==> cache_only,
        thumbnail.source == ThumbnailSource::Provider <==> !cache_only,
        side is Ok <==> 0 < size <= 0x7fff_ffff,
        side matches Ok(n) ==> n == size,
{
}

/// A path is taken for a folder where its name has no extension or it ends in a separator.
pub proof fn law_unknown_paths_are_guessed(
    path: &[u16],
    extension: Option<Vec<u16>>,
    attributes: u32,
)
    requires
        call_ensures(extension_of, (path,), extension),
        call_ensures(fallback_attributes, (path,), attributes),
    ensures
        attributes == 0x10 <==> extension is None || (path@.len() > 0 && (path@.last() == 0x5c
            || path@.last() == 0x2f)),
        attributes == 0x80 <==> attributes != 0x10,
{
}

} // verus!
