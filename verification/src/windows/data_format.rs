//! Formats of data that is dragged or put on the clipboard, and the list of files among them.
use vstd::prelude::*;

use crate::bytes;
use crate::bytes::{push_u32, push_unit_bytes};
use crate::errors;
use crate::errors::{ErrorKind, IoError};
use crate::wide;
use crate::wide::{contains_unit, push_units};
use crate::winpath;

verus! {

/// The format under which a list of files is exchanged.
pub const CF_HDROP: u16 = 15;

/// The content itself, not a picture of it.
pub const DVASPECT_CONTENT: u32 = 1;

/// Data in a block of memory.
pub const TYMED_HGLOBAL: u32 = 1;

/// Data in a stream.
pub const TYMED_ISTREAM: u32 = 4;

/// The size of the header before a list of files.
pub const DROPFILES_SIZE: u32 = 20;

/// A request for data: which format, which aspect of it, which part, and by which means.
#[derive(Debug, Clone, Copy, PartialEq, Eq, Structural)]
pub struct DataFormat {
    pub format: u16,
    pub aspect: u32,
    pub index: i32,
    pub medium: u32,
}

/// The request for all of the content of a format, in memory.
pub open spec fn whole_content(format: u16) -> DataFormat {
    DataFormat { format, aspect: DVASPECT_CONTENT, index: -1i32, medium: TYMED_HGLOBAL }
}

pub fn format_etc(format: u16) -> (request: DataFormat)
    ensures
        request == whole_content(format),
{
    DataFormat { format, aspect: DVASPECT_CONTENT, index: -1, medium: TYMED_HGLOBAL }
}

/// The request for one part of the content, in a stream or in memory.
pub fn contents_format(format: u16, index: usize) -> (request: DataFormat)
    ensures
        request.format == format,
        request.aspect == DVASPECT_CONTENT,
        request.index == if index <= i32::MAX {
            index as int
        } else {
            i32::MAX as int
        },
        request.medium == 5,
{
    let index: i32 = if index <= 0x7fff_ffff {
        index as i32
    } else {
        0x7fff_ffff
    };
    assert(4u32 | 1u32 == 5u32) by (bit_vector);
    DataFormat { format, aspect: DVASPECT_CONTENT, index, medium: TYMED_ISTREAM | TYMED_HGLOBAL }
}

/// The request is for all of the content of the format, and takes it in memory.
pub open spec fn is_supported(request: DataFormat, expected: u16) -> bool {
    request.format == expected && request.aspect == DVASPECT_CONTENT && request.index == -1
        && request.medium & TYMED_HGLOBAL != 0
}

pub fn supports_format(request: &DataFormat, expected: u16) -> (supported: bool)
    ensures
        supported == is_supported(*request, expected),
{
    request.format == expected && request.aspect == DVASPECT_CONTENT && request.index == -1
        && request.medium & TYMED_HGLOBAL != 0
}

/// Both requests are for the same data and share a means.
pub open spec fn is_match(left: DataFormat, right: DataFormat) -> bool {
    left.format == right.format && left.aspect == right.aspect && left.index == right.index
        && left.medium & right.medium != 0
}

pub fn format_matches(left: &DataFormat, right: &DataFormat) -> (matching: bool)
    ensures
        matching == is_match(*left, *right),
{
    left.format == right.format && left.aspect == right.aspect && left.index == right.index
        && left.medium & right.medium != 0
}

// ---- the list of files ----

/// A path that can stand in a list: it is not empty and holds no NUL.
pub open spec fn is_listable(path: Seq<u16>) -> bool {
    path.len() > 0 && !path.contains(0)
}

pub open spec fn all_listable(paths: Seq<Seq<u16>>) -> bool {
    forall|i: int| 0 <= i < paths.len() ==> is_listable(#[trigger] paths[i])
}

/// The paths one after the other, each closed by a NUL.
pub open spec fn name_list(paths: Seq<Seq<u16>>) -> Seq<u16>
    decreases paths.len(),
{
    if paths.len() == 0 {
        Seq::empty()
    } else {
        paths[0].push(0) + name_list(paths.subrange(1, paths.len() as int))
    }
}

/// The header of a list: where the names start, no point, and names in UTF-16.
pub open spec fn list_header() -> Seq<u8> {
    bytes::bytes32(DROPFILES_SIZE) + bytes::bytes32(0) + bytes::bytes32(0) + bytes::bytes32(0)
        + bytes::bytes32(1)
}

/// The list of files as it is exchanged: the header, the names and one more NUL.
pub open spec fn file_list(paths: Seq<Seq<u16>>) -> Seq<u8> {
    list_header() + bytes::unit_bytes(name_list(paths).push(0))
}

pub fn validate_path(path: &[u16], message: &'static str) -> (valid: Result<(), IoError>)
    ensures
        valid is Ok <==> is_listable(path@),
        valid matches Err(error) ==> errors::fails_with(error, ErrorKind::InvalidInput, message@),
{
    if path.len() == 0 || contains_unit(path, 0) {
        Err(IoError::new(ErrorKind::InvalidInput, message))
    } else {
        Ok(())
    }
}

/// A path read out of a list on the clipboard: of `length` units, `copied` went into the buffer.
pub fn clipboard_path(
    length: u32,
    copied: u32,
    buffer: Vec<u16>,
    failure: IoError,
) -> (path: Result<Vec<u16>, IoError>)
    requires
        copied <= buffer@.len(),
    ensures
        match path {
            Ok(path) => !(copied == 0 && length != 0) && path@ == buffer@.take(copied as int),
            Err(error) => copied == 0 && length != 0 && error == failure,
        },
{
    if copied == 0 && length != 0 {
        return Err(failure);
    }
    let mut path = buffer;
    path.truncate(copied as usize);
    assert(path@ =~= buffer@.take(copied as int));
    Ok(path)
}

/// A path read out of a list that was dropped: all of its units must have been copied.
pub fn dropped_path(length: u32, copied: u32, buffer: Vec<u16>) -> (path: Result<Vec<u16>, IoError>)
    requires
        length <= buffer@.len(),
    ensures
        match path {
            Ok(path) => copied == length && path@ == buffer@.take(length as int),
            Err(error) => copied != length && errors::fails_with(
                error,
                ErrorKind::Other,
                "unable to read CF_HDROP path"@,
            ),
        },
{
    if copied != length {
        return Err(IoError::new(ErrorKind::Other, "unable to read CF_HDROP path"));
    }
    let mut path = buffer;
    path.truncate(length as usize);
    assert(path@ =~= buffer@.take(length as int));
    Ok(path)
}

fn list_names(paths: &[Vec<u16>], message: &'static str) -> (names: Result<Vec<u16>, IoError>)
    ensures
        names is Ok <==> all_listable(winpath::path_views(paths@)),
        names matches Ok(names) ==> names@ == name_list(winpath::path_views(paths@)),
        names matches Err(error) ==> errors::fails_with(error, ErrorKind::InvalidInput, message@),
{
    let mut names: Vec<u16> = Vec::new();
    let ghost views = winpath::path_views(paths@);
    let mut i: usize = 0;
    assert(views.subrange(0, views.len() as int) =~= views);
    while i < paths.len()
        invariant
            i <= paths@.len(),
            views == winpath::path_views(paths@),
            forall|j: int| 0 <= j < i ==> is_listable(#[trigger] views[j]),
            name_list(views) == names@ + name_list(views.subrange(i as int, views.len() as int)),
        decreases paths@.len() - i,
    {
        assert(views[i as int] == paths@[i as int]@);
        match validate_path(paths[i].as_slice(), message) {
            Ok(()) => {},
            Err(error) => {
                return Err(error);
            },
        }
        proof {
            let rest = views.subrange(i as int, views.len() as int);
            assert(rest.subrange(1, rest.len() as int) =~= views.subrange(
                i + 1,
                views.len() as int,
            ));
        }
        push_units(&mut names, paths[i].as_slice());
        names.push(0);
        i += 1;
        assert(name_list(views) =~= names@ + name_list(
            views.subrange(i as int, views.len() as int),
        ));
    }
    assert(names@ =~= name_list(views));
    Ok(names)
}

/// The list of files as it is exchanged; `message` is the text of the error for a path that cannot
/// stand in it.
pub fn encode_dropfiles(paths: &[Vec<u16>], message: &'static str) -> (list: Result<
    Vec<u8>,
    IoError,
>)
    ensures
        list is Ok <==> all_listable(winpath::path_views(paths@)),
        list matches Ok(list) ==> list@ == file_list(winpath::path_views(paths@)),
        list matches Err(error) ==> errors::fails_with(error, ErrorKind::InvalidInput, message@),
{
    match list_names(paths, message) {
        Err(error) => Err(error),
        Ok(names) => {
            let mut names = names;
            names.push(0);
            let mut list: Vec<u8> = Vec::new();
            push_u32(&mut list, DROPFILES_SIZE);
            push_u32(&mut list, 0);
            push_u32(&mut list, 0);
            push_u32(&mut list, 0);
            push_u32(&mut list, 1);
            assert(list@ =~= list_header());
            push_unit_bytes(&mut list, names.as_slice());
            Ok(list)
        },
    }
}

/// The paths in the names of a list, up to the empty one that ends it.
pub open spec fn listed_paths(names: Seq<u16>) -> Seq<Seq<u16>>
    decreases names.len(),
{
    if names.len() == 0 || names[0] == 0 {
        Seq::empty()
    } else {
        let first = wide::before_nul(names);
        if first.len() + 1 <= names.len() {
            seq![first] + listed_paths(names.subrange(first.len() + 1int, names.len() as int))
        } else {
            seq![first]
        }
    }
}

proof fn lemma_before_nul(path: Seq<u16>, after: Seq<u16>)
    requires
        !path.contains(0),
    ensures
        wide::before_nul(path + seq![0u16] + after) == path,
    decreases path.len(),
{
    let all = path + seq![0u16] + after;
    if path.len() > 0 {
        let rest = path.subrange(1, path.len() as int);
        assert(!rest.contains(0)) by {
            assert(forall|i: int| 0 <= i < rest.len() ==> rest[i] == path[i + 1]);
        }
        lemma_before_nul(rest, after);
        assert(all.subrange(1, all.len() as int) =~= rest + seq![0u16] + after);
        assert(path[0] != 0) by {
            assert(path.contains(path[0]));
        }
        assert(wide::before_nul(all) =~= path);
    } else {
        assert(all[0] == 0);
        assert(wide::before_nul(all) =~= path);
    }
}

/// Reading the names of a list back gives the paths that were put in, whatever units they hold.
pub proof fn law_file_list_preserves_paths(paths: Seq<Seq<u16>>)
    requires
        all_listable(paths),
    ensures
        listed_paths(name_list(paths).push(0)) == paths,
    decreases paths.len(),
{
    let names = name_list(paths).push(0);
    if paths.len() == 0 {
        assert(names[0] == 0);
        assert(listed_paths(names) =~= paths);
    } else {
        let rest = paths.subrange(1, paths.len() as int);
        assert(all_listable(rest)) by {
            assert forall|i: int| 0 <= i < rest.len() implies is_listable(#[trigger] rest[i]) by {
                assert(rest[i] == paths[i + 1]);
            }
        }
        law_file_list_preserves_paths(rest);
        let first = paths[0];
        assert(is_listable(first));
        let after = name_list(rest).push(0);
        assert(names =~= first + seq![0u16] + after);
        lemma_before_nul(first, after);
        assert(first[0] != 0) by {
            assert(first.contains(first[0]));
        }
        assert(names.subrange(first.len() + 1int, names.len() as int) =~= after);
        assert(listed_paths(names) =~= paths);
    }
}

/// A request is served by a format only where it asks for all of the content, in memory; two
/// requests match where they are for the same data and can agree on a means.
pub proof fn law_requests_are_matched(
    request: DataFormat,
    expected: u16,
    supported: bool,
    other: DataFormat,
    matching: bool,
)
    requires
        call_ensures(supports_format, (&request, expected), supported),
        call_ensures(format_matches, (&request, &other), matching),
    ensures
        supported <==> request.format == expected && request.aspect == 1 && request.index == -1
            && request.medium & 1 != 0,
        matching <==> request.format == other.format && request.aspect == other.aspect
            && request.index == other.index && request.medium & other.medium != 0,
{
}

/// A list of files can be encoded exactly where every path is there and holds no NUL, and the names
/// in it are then those paths.
pub proof fn law_an_encoded_list_names_its_files(
    paths: &[Vec<u16>],
    message: &'static str,
    list: Result<Vec<u8>, IoError>,
)
    requires
        call_ensures(encode_dropfiles, (paths, message), list),
    ensures
        list is Ok <==> forall|i: int|
            0 <= i < paths@.len() ==> (#[trigger] paths@[i])@.len() > 0 && !paths@[i]@.contains(0),
        list matches Ok(b) ==> b@.len() >= 20 && bytes::le32(b@, 0) == 20 && bytes::le32(b@, 16)
            == 1 && listed_paths(bytes::units_in(b@.subrange(20, b@.len() as int)))
            == winpath::path_views(paths@),
{
    let views = winpath::path_views(paths@);
    assert(views.len() == paths@.len());
    assert forall|i: int| 0 <= i < paths@.len() implies #[trigger] views[i] == paths@[i]@ by {}
    if all_listable(views) {
        assert forall|i: int| 0 <= i < paths@.len() implies (#[trigger] paths@[i])@.len() > 0
            && !paths@[i]@.contains(0) by {
            assert(is_listable(views[i]));
        }
        let b = list->Ok_0@;
        let names = name_list(views).push(0);
        let tail = bytes::unit_bytes(names);
        assert(list_header().len() == 20);
        assert(b.subrange(20, b.len() as int) =~= tail);
        bytes::law_units_round_trip(names);
        law_file_list_preserves_paths(views);
        let none = Seq::<u8>::empty();
        let rest = bytes::bytes32(0) + bytes::bytes32(0) + bytes::bytes32(0) + bytes::bytes32(1)
            + tail;
        assert(b =~= none + bytes::bytes32(20) + rest);
        bytes::lemma_le32(none, 20, rest);
        let head = bytes::bytes32(20) + bytes::bytes32(0) + bytes::bytes32(0) + bytes::bytes32(0);
        assert(head.len() == 16);
        assert(b =~= head + bytes::bytes32(1) + tail);
        bytes::lemma_le32(head, 1, tail);
    } else {
        let i = choose|i: int| 0 <= i < views.len() && !is_listable(#[trigger] views[i]);
        assert(!((paths@[i])@.len() > 0 && !paths@[i]@.contains(0)));
    }
}

/// A path is taken from the clipboard or from a drop as it was copied, and only where it was copied
/// whole.
pub proof fn law_paths_are_copied_whole(
    length: u32,
    copied: u32,
    buffer: Vec<u16>,
    failure: IoError,
    clipped: Result<Vec<u16>, IoError>,
    dropped: Result<Vec<u16>, IoError>,
)
    requires
        copied <= buffer@.len(),
        length <= buffer@.len(),
        call_ensures(clipboard_path, (length, copied, buffer, failure), clipped),
        call_ensures(dropped_path, (length, copied, buffer), dropped),
    ensures
        dropped is Ok <==> copied == length,
        clipped is Err <==> copied == 0 && length != 0,
        clipped matches Ok(path) ==> path@.len() == copied && forall|i: int|
            0 <= i < copied ==> #[trigger] path@[i] == buffer@[i],
        dropped matches Ok(path) ==> path@.len() == length && forall|i: int|
            0 <= i < length ==> #[trigger] path@[i] == buffer@[i],
{
}

} // verus!
