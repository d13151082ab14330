//! Copying the files of a drop aside: files that exist only in the other program, and files that
//! it deletes as soon as the drop is over.
use vstd::prelude::*;

use crate::errors;
use crate::errors::{ErrorKind, IoError};
use crate::windows::data_format::{TYMED_HGLOBAL, TYMED_ISTREAM};
use crate::windows::drag_drop::staging;
use crate::windows::drag_drop::staging::{
    parse_descriptors, relatives_under_common_parent, top_level_paths, Entry, VirtualEntry,
};
use crate::winpath;
use crate::winpath::{join, parent_of, units_copy_all};

verus! {

// ---- the list of files ----

/// The numbers under which the system knows the formats of virtual files; zero where it has none.
#[derive(Debug, Clone, Copy, PartialEq, Eq, Structural)]
pub struct VirtualFormats {
    pub descriptor_w: u16,
    pub descriptor_a: u16,
    pub contents: u16,
}

/// The formats, where virtual files can be read with them.
pub fn virtual_formats(descriptor_w: u16, descriptor_a: u16, contents: u16) -> (formats: Option<
    VirtualFormats,
>)
    ensures
        formats == if descriptor_w != 0 && contents != 0 {
            Some(VirtualFormats { descriptor_w, descriptor_a, contents })
        } else {
            None
        },
{
    if descriptor_w != 0 && contents != 0 {
        Some(VirtualFormats { descriptor_w, descriptor_a, contents })
    } else {
        None
    }
}

/// The bytes of a list of files, where the drop offers it.
pub type OfferedList = Option<Result<Vec<u8>, IoError>>;

/// The files of a list that is offered.
pub open spec fn lists(
    result: Result<Vec<VirtualEntry>, IoError>,
    offered: Result<Vec<u8>, IoError>,
    is_wide: bool,
) -> bool {
    match offered {
        Ok(b) => match staging::listed_entries(b@, is_wide) {
            Ok(expected) => result matches Ok(entries) && staging::entries_of(entries@) == expected,
            Err(message) => result matches Err(error) && errors::fails_with(
                error,
                ErrorKind::Other,
                message,
            ),
        },
        Err(error) => result == Err::<Vec<VirtualEntry>, IoError>(error),
    }
}

fn read_descriptor_entries(offered: Result<Vec<u8>, IoError>, is_wide: bool) -> (result: Result<
    Vec<VirtualEntry>,
    IoError,
>)
    ensures
        lists(result, offered, is_wide),
{
    match offered {
        Ok(b) => parse_descriptors(b.as_slice(), is_wide),
        Err(error) => Err(error),
    }
}

/// The virtual files of a drop: those of the list in UTF-16, else those of the list in bytes, where
/// the system knows that one.
pub fn read_virtual_entries(
    formats: Option<VirtualFormats>,
    wide: OfferedList,
    ansi: OfferedList,
) -> (result: Result<Vec<VirtualEntry>, IoError>)
    ensures
        match (formats, wide, ansi) {
            (None, _, _) => result matches Err(error) && errors::fails_with(
                error,
                ErrorKind::Other,
                "virtual file format is unavailable"@,
            ),
            (Some(_), Some(offered), _) => lists(result, offered, true),
            (Some(formats), None, Some(offered)) if formats.descriptor_a != 0 => lists(
                result,
                offered,
                false,
            ),
            _ => result matches Err(error) && errors::fails_with(
                error,
                ErrorKind::NotFound,
                "virtual file list is missing"@,
            ),
        },
{
    let formats = match formats {
        Some(formats) => formats,
        None => {
            return Err(IoError::new(ErrorKind::Other, "virtual file format is unavailable"));
        },
    };
    if let Some(offered) = wide {
        return read_descriptor_entries(offered, true);
    }
    if formats.descriptor_a != 0 {
        if let Some(offered) = ansi {
            return read_descriptor_entries(offered, false);
        }
    }
    Err(IoError::new(ErrorKind::NotFound, "virtual file list is missing"))
}

pub open spec fn relatives_of(entries: Seq<Entry>) -> Seq<Seq<u16>> {
    Seq::new(entries.len(), |i: int| entries[i].relative)
}

fn copy_relatives(entries: &[VirtualEntry]) -> (relatives: Vec<Vec<u16>>)
    ensures
        winpath::path_views(relatives@) == relatives_of(staging::entries_of(entries@)),
{
    let mut relatives: Vec<Vec<u16>> = Vec::new();
    let n: usize = entries.len();
    let mut i: usize = 0;
    while i < n
        invariant
            n == entries@.len(),
            i <= n,
            relatives@.len() == i,
            forall|j: int| 0 <= j < i ==> (#[trigger] relatives@[j])@ == entries@[j].relative@,
        decreases n - i,
    {
        relatives.push(units_copy_all(entries[i].relative.as_slice()));
        i += 1;
    }
    assert(winpath::path_views(relatives@) =~= relatives_of(staging::entries_of(entries@)));
    relatives
}

/// The names of the virtual files of a drop, if there are any.
pub fn virtual_file_names(entries: &Result<Vec<VirtualEntry>, IoError>) -> (names: Option<
    Vec<Vec<u16>>,
>)
    ensures
        match *entries {
            Ok(entries) => if entries@.len() > 0 {
                names matches Some(names) && winpath::path_views(names@) == relatives_of(
                    staging::entries_of(entries@),
                )
            } else {
                names is None
            },
            Err(_) => names is None,
        },
{
    match entries {
        Ok(entries) => if entries.len() > 0 {
            Some(copy_relatives(entries.as_slice()))
        } else {
            None
        },
        Err(_) => None,
    }
}

// ---- virtual files ----

/// What is done for one virtual file: its folders are made, then its contents are written.
#[derive(Debug, Clone, PartialEq, Eq)]
pub struct VirtualStep {
    pub folders: Option<Vec<u16>>,
    /// The number of the contents in the drop, where it is a file.
    pub contents: Option<i32>,
    pub destination: Vec<u16>,
}

pub open spec fn contents_number(i: int) -> i32 {
    if i <= i32::MAX {
        i as i32
    } else {
        i32::MAX
    }
}

/// The step for the i-th file.
pub open spec fn is_virtual_step(step: VirtualStep, root: Seq<u16>, entry: Entry, i: int) -> bool {
    let destination = winpath::joined(root, entry.relative);
    &&& step.destination@ == destination
    &&& if entry.is_dir {
        &&& step.folders matches Some(folders) && folders@ == destination
        &&& step.contents is None
    } else {
        &&& match winpath::path_parent(destination) {
            Some(parent) => step.folders matches Some(folders) && folders@ == parent,
            None => step.folders is None,
        }
        &&& step.contents == Some(contents_number(i))
    }
}

fn virtual_step(root: &[u16], entry: &VirtualEntry, i: usize) -> (step: VirtualStep)
    ensures
        is_virtual_step(step, root@, entry@, i as int),
{
    let destination = join(root, entry.relative.as_slice());
    if entry.is_dir {
        let folders = units_copy_all(destination.as_slice());
        VirtualStep { folders: Some(folders), contents: None, destination }
    } else {
        let number: i32 = if i <= 0x7fff_ffff {
            i as i32
        } else {
            i32::MAX
        };
        VirtualStep {
            folders: parent_of(destination.as_slice()),
            contents: Some(number),
            destination,
        }
    }
}

/// How the virtual files of a drop are written below a folder, and what then stands there.
#[derive(Debug, Clone, PartialEq, Eq)]
pub struct VirtualPlan {
    pub steps: Vec<VirtualStep>,
    pub paths: Vec<Vec<u16>>,
}

/// A drop must hold a file before a folder is made for it.
pub fn check_virtual(entries: &[VirtualEntry]) -> (result: Result<(), IoError>)
    ensures
        result is Ok <==> entries@.len() > 0,
        result matches Err(error) ==> errors::fails_with(
            error,
            ErrorKind::NotFound,
            "virtual drop is empty"@,
        ),
{
    if entries.len() == 0 {
        Err(IoError::new(ErrorKind::NotFound, "virtual drop is empty"))
    } else {
        Ok(())
    }
}

pub fn materialize_virtual(root: &[u16], entries: &[VirtualEntry]) -> (plan: VirtualPlan)
    ensures
        plan.steps@.len() == entries@.len(),
        forall|i: int|
            0 <= i < entries@.len() ==> is_virtual_step(
                #[trigger] plan.steps@[i],
                root@,
                entries@[i]@,
                i,
            ),
        winpath::path_views(plan.paths@) == staging::top_level(
            root@,
            relatives_of(staging::entries_of(entries@)),
        ),
{
    let mut steps: Vec<VirtualStep> = Vec::new();
    let n: usize = entries.len();
    let mut i: usize = 0;
    while i < n
        invariant
            n == entries@.len(),
            i <= n,
            steps@.len() == i,
            forall|j: int|
                0 <= j < i ==> is_virtual_step(#[trigger] steps@[j], root@, entries@[j]@, j),
        decreases n - i,
    {
        steps.push(virtual_step(root, &entries[i], i));
        i += 1;
    }
    let relatives = copy_relatives(entries);
    VirtualPlan { steps, paths: top_level_paths(root, relatives.as_slice()) }
}

// ---- files that do not last ----

/// A file or folder and the place that it is copied to.
#[derive(Debug, Clone, PartialEq, Eq)]
pub struct SnapshotCopy {
    pub source: Vec<u16>,
    pub destination: Vec<u16>,
}

/// How files are copied below a folder, and what then stands there.
#[derive(Debug, Clone, PartialEq, Eq)]
pub struct SnapshotPlan {
    pub copies: Vec<SnapshotCopy>,
    pub paths: Vec<Vec<u16>>,
}

/// Each file goes to the place below the folder that it has below the parent of all of them.
pub open spec fn copies_all(
    copies: Seq<SnapshotCopy>,
    root: Seq<u16>,
    sources: Seq<Seq<u16>>,
    relatives: Seq<Seq<u16>>,
) -> bool {
    &&& copies.len() == sources.len()
    &&& forall|i: int|
        0 <= i < copies.len() ==> (#[trigger] copies[i]).source@ == sources[i]
            && copies[i].destination@ == winpath::joined(root, relatives[i])
}

pub fn snapshot_ephemeral(root: &[u16], sources: &[Vec<u16>]) -> (result: Result<
    SnapshotPlan,
    IoError,
>)
    ensures
        ({
            let views = winpath::path_views(sources@);
            match staging::relatives(views) {
                Ok(relatives) => result matches Ok(plan) && copies_all(
                    plan.copies@,
                    root@,
                    views,
                    relatives,
                ) && winpath::path_views(plan.paths@) == staging::top_level(root@, relatives),
                Err(message) => result matches Err(error) && errors::fails_with(
                    error,
                    ErrorKind::InvalidInput,
                    message,
                ),
            }
        }),
{
    let relatives = match relatives_under_common_parent(sources) {
        Ok(relatives) => relatives,
        Err(error) => {
            return Err(error);
        },
    };
    let ghost views = winpath::path_views(sources@);
    let ghost below = winpath::path_views(relatives@);
    let n: usize = sources.len();
    assert(below.len() == n);
    let mut copies: Vec<SnapshotCopy> = Vec::new();
    let mut i: usize = 0;
    while i < n
        invariant
            n == sources@.len(),
            relatives@.len() == n,
            i <= n,
            copies@.len() == i,
            forall|j: int|
                0 <= j < i ==> (#[trigger] copies@[j]).source@ == sources@[j]@
                    && copies@[j].destination@ == winpath::joined(root@, relatives@[j]@),
        decreases n - i,
    {
        copies.push(
            SnapshotCopy {
                source: units_copy_all(sources[i].as_slice()),
                destination: join(root, relatives[i].as_slice()),
            },
        );
        i += 1;
    }
    Ok(SnapshotPlan { copies, paths: top_level_paths(root, relatives.as_slice()) })
}

// ---- the end ----

/// What a drop has brought, where it was written; on a failure the folder is removed again.
pub fn stage_drop(written: Result<Vec<Vec<u16>>, IoError>) -> (result: Result<
    Vec<Vec<u16>>,
    IoError,
>)
    ensures
        match written {
            Ok(paths) => if paths@.len() > 0 {
                result == Ok::<Vec<Vec<u16>>, IoError>(paths)
            } else {
                result matches Err(error) && errors::fails_with(
                    error,
                    ErrorKind::NotFound,
                    "staged drop is empty"@,
                )
            },
            Err(error) => result == Err::<Vec<Vec<u16>>, IoError>(error),
        },
{
    match written {
        Ok(paths) => if paths.len() > 0 {
            Ok(paths)
        } else {
            Err(IoError::new(ErrorKind::NotFound, "staged drop is empty"))
        },
        Err(error) => Err(error),
    }
}

/// How the contents of a virtual file are held.
#[derive(Debug, Clone, Copy, PartialEq, Eq, Structural)]
pub enum ContentsMedium {
    Stream,
    Memory,
}

pub fn contents_medium(tymed: u32, has_stream: bool) -> (result: Result<ContentsMedium, IoError>)
    ensures
        if tymed == TYMED_ISTREAM {
            if has_stream {
                result == Ok::<ContentsMedium, IoError>(ContentsMedium::Stream)
            } else {
                result matches Err(error) && errors::fails_with(
                    error,
                    ErrorKind::Other,
                    "file contents stream is empty"@,
                )
            }
        } else if tymed == TYMED_HGLOBAL {
            result == Ok::<ContentsMedium, IoError>(ContentsMedium::Memory)
        } else {
            result matches Err(error) && errors::fails_with(
                error,
                ErrorKind::Other,
                "file contents use an unsupported storage medium"@,
            )
        },
{
    if tymed == TYMED_ISTREAM {
        if has_stream {
            return Ok(ContentsMedium::Stream);
        }
        return Err(IoError::new(ErrorKind::Other, "file contents stream is empty"));
    }
    if tymed == TYMED_HGLOBAL {
        return Ok(ContentsMedium::Memory);
    }
    Err(IoError::new(ErrorKind::Other, "file contents use an unsupported storage medium"))
}

/// A relative path that names neither a drive nor a root is put below the folder: its place begins
/// with the folder's path and ends with the relative path.
pub proof fn law_staged_files_stay_below(root: Seq<u16>, relative: Seq<u16>)
    requires
        !winpath::is_verbatim(root),
        winpath::prefix_of(relative) is None,
        !winpath::physical_root(relative),
    ensures
        ({
            let place = winpath::joined(root, relative);
            &&& root.len() + relative.len() <= place.len()
            &&& place.subrange(0, root.len() as int) == root
            &&& place.subrange(place.len() - relative.len(), place.len() as int) == relative
        }),
{
    let place = winpath::joined(root, relative);
    assert(place.subrange(0, root.len() as int) =~= root);
    assert(place.subrange(place.len() - relative.len(), place.len() as int) =~= relative);
}

/// Each virtual file goes to its place below the folder: a folder is made there, a file gets the
/// contents of its own number, in a folder that is made first. Nothing else is written.
pub proof fn law_virtual_files_get_their_own_contents(
    root: &[u16],
    entries: &[VirtualEntry],
    plan: VirtualPlan,
    i: int,
)
    requires
        call_ensures(materialize_virtual, (root, entries), plan),
        0 <= i < entries@.len() <= i32::MAX,
    ensures
        plan.steps@.len() == entries@.len(),
        plan.steps@[i].destination@ == winpath::joined(root@, entries@[i].relative@),
        plan.steps@[i].contents is None <==> entries@[i].is_dir,
        plan.steps@[i].contents matches Some(number) ==> number == i,
        entries@[i].is_dir ==> (plan.steps@[i].folders matches Some(folder) && folder@
            == plan.steps@[i].destination@),
        !entries@[i].is_dir ==> match winpath::path_parent(plan.steps@[i].destination@) {
            Some(parent) => plan.steps@[i].folders matches Some(folder) && folder@ == parent,
            None => plan.steps@[i].folders is None,
        },
{
    assert(is_virtual_step(plan.steps@[i], root@, entries@[i]@, i));
}

/// Each temporary file is copied, from where it is to the place below the folder that it has below
/// the parent of all of them.
pub proof fn law_temporary_files_are_copied(
    root: &[u16],
    sources: &[Vec<u16>],
    plan: SnapshotPlan,
    relatives: Vec<Vec<u16>>,
    i: int,
)
    requires
        call_ensures(snapshot_ephemeral, (root, sources), Ok(plan)),
        call_ensures(staging::relatives_under_common_parent, (sources,), Ok(relatives)),
        0 <= i < sources@.len(),
    ensures
        plan.copies@.len() == sources@.len(),
        plan.copies@[i].source@ == sources@[i]@,
        plan.copies@[i].destination@ == winpath::joined(root@, relatives@[i]@),
{
    let views = winpath::path_views(sources@);
    assert(views[i] == sources@[i]@);
    let found = winpath::path_views(relatives@);
    assert(found[i] == relatives@[i]@);
}

/// The names of virtual files are their relative paths, in order; without files there are none.
pub proof fn law_virtual_files_are_named(
    entries: Vec<VirtualEntry>,
    names: Option<Vec<Vec<u16>>>,
)
    requires
        call_ensures(virtual_file_names, (&Ok::<Vec<VirtualEntry>, IoError>(entries),), names),
    ensures
        names is Some <==> entries@.len() > 0,
        names matches Some(names) ==> names@.len() == entries@.len() && forall|i: int|
            0 <= i < entries@.len() ==> (#[trigger] names@[i])@ == entries@[i].relative@,
{
    if let Some(names) = names {
        let views = winpath::path_views(names@);
        assert(views.len() == names@.len());
        assert(relatives_of(staging::entries_of(entries@)).len() == entries@.len());
        assert forall|i: int| 0 <= i < entries@.len() implies (#[trigger] names@[i])@
            == entries@[i].relative@ by {
            assert(views[i] == relatives_of(staging::entries_of(entries@))[i]);
        }
    }
}

/// The list of the virtual files is read from the wide form where that is offered, and else from the
/// narrow one where its format is known; an offered list that could not be read is an error.
pub proof fn law_the_wide_list_comes_first(
    formats: Option<VirtualFormats>,
    wide: OfferedList,
    ansi: OfferedList,
    from_wide: &[u8],
    from_ansi: &[u8],
    wide_entries: Result<Vec<VirtualEntry>, IoError>,
    ansi_entries: Result<Vec<VirtualEntry>, IoError>,
    result: Result<Vec<VirtualEntry>, IoError>,
)
    requires
        call_ensures(read_virtual_entries, (formats, wide, ansi), result),
        wide is Some && wide->0 is Ok ==> from_wide@ == wide->0->Ok_0@,
        ansi is Some && ansi->0 is Ok ==> from_ansi@ == ansi->0->Ok_0@,
        call_ensures(staging::parse_descriptors, (from_wide, true), wide_entries),
        call_ensures(staging::parse_descriptors, (from_ansi, false), ansi_entries),
    ensures
        formats is None ==> result is Err,
        formats is Some && wide is Some && wide->0 is Err ==> result == Err::<
            Vec<VirtualEntry>,
            IoError,
        >(wide->0->Err_0),
        formats is Some && wide is Some && wide->0 is Ok ==> (result is Ok <==> wide_entries is Ok)
            && (result is Ok ==> staging::entries_of(result->Ok_0@) == staging::entries_of(
            wide_entries->Ok_0@,
        )),
        formats is Some && wide is None && ansi is Some && ansi->0 is Ok && formats->0.descriptor_a
            != 0 ==> (result is Ok <==> ansi_entries is Ok) && (result is Ok ==> staging::entries_of(
            result->Ok_0@,
        ) == staging::entries_of(ansi_entries->Ok_0@)),
        wide is None && ansi is None ==> result is Err,
{
}

/// A drop that has written nothing is an error, and any other is what was written; contents come from a
/// stream or from memory.
pub proof fn law_an_empty_drop_is_an_error(
    written: Result<Vec<Vec<u16>>, IoError>,
    result: Result<Vec<Vec<u16>>, IoError>,
    entries: &[VirtualEntry],
    checked: Result<(), IoError>,
    tymed: u32,
    has_stream: bool,
    medium: Result<ContentsMedium, IoError>,
    wide: u16,
    narrow: u16,
    contents: u16,
    formats: Option<VirtualFormats>,
)
    requires
        call_ensures(stage_drop, (written,), result),
        call_ensures(check_virtual, (entries,), checked),
        call_ensures(contents_medium, (tymed, has_stream), medium),
        call_ensures(virtual_formats, (wide, narrow, contents), formats),
    ensures
        result is Ok <==> written is Ok && written->Ok_0@.len() > 0,
        result is Ok ==> result->Ok_0 == written->Ok_0,
        written is Err ==> result == written,
        checked is Ok <==> entries@.len() > 0,
        medium is Ok <==> (tymed == 4 && has_stream) || tymed == 1,
        medium is Ok ==> (medium->Ok_0 is Stream <==> tymed == 4) && (medium->Ok_0 is Memory
            <==> tymed == 1),
        formats is Some <==> wide != 0 && contents != 0,
        formats is Some ==> formats->0.descriptor_w == wide && formats->0.descriptor_a == narrow
            && formats->0.contents == contents,
{
}

} // verus!
