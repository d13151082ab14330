//! The libraries of the Shell that are shown in the navigation pane.
use vstd::prelude::*;

use crate::errors;
use crate::errors::{ErrorKind, IoError};
use crate::winpath::units_copy_all;

verus! {

/// The identity of a library in the Shell.
#[derive(Debug, Clone, PartialEq, Eq, Hash)]
pub struct LibraryId(pub Vec<u16>);

impl LibraryId {
    pub fn new(identity: Vec<u16>) -> (id: LibraryId)
        ensures
            id.0 == identity,
    {
        LibraryId(identity)
    }

    pub fn as_os_str(&self) -> (identity: &[u16])
        ensures
            identity@ == self.0@,
    {
        self.0.as_slice()
    }
}

#[derive(Debug, Clone, PartialEq, Eq)]
pub struct LibrarySource {
    pub shell_identity: Vec<u16>,
    pub path: Option<Vec<u16>>,
}

#[derive(Debug, Clone, PartialEq, Eq)]
pub struct WindowsLibrary {
    pub id: LibraryId,
    pub definition_path: Option<Vec<u16>>,
    pub display_name: Vec<u16>,
    pub pinned: bool,
    pub sort_order: u32,
    pub sources: Vec<LibrarySource>,
    pub default_save_path: Option<Vec<u16>>,
}

#[derive(Debug, Clone, PartialEq, Eq)]
pub struct LibraryFailure {
    pub shell_identity: Option<Vec<u16>>,
    pub message: String,
}

#[derive(Debug, Clone, PartialEq, Eq)]
pub struct LibraryEnumeration {
    pub libraries: Vec<WindowsLibrary>,
    pub failures: Vec<LibraryFailure>,
}

impl Default for LibraryEnumeration {
    fn default() -> (enumeration: LibraryEnumeration)
        ensures
            enumeration.libraries@.len() == 0,
            enumeration.failures@.len() == 0,
    {
        LibraryEnumeration { libraries: Vec::new(), failures: Vec::new() }
    }
}

/// What the Shell says of a folder in a library.
#[derive(Debug)]
pub struct SourceItem {
    pub path: Option<Vec<u16>>,
    pub shell_identity: Option<Vec<u16>>,
}

/// What the Shell says of a library; each part may have failed.
#[derive(Debug)]
pub struct LibraryItem {
    pub shell_identity: Result<Vec<u16>, IoError>,
    pub pinned: Result<bool, IoError>,
    pub display_name: Result<Vec<u16>, IoError>,
    pub definition_path: Option<Vec<u16>>,
    pub sources: Result<Vec<SourceItem>, IoError>,
    pub default_save_path: Option<Vec<u16>>,
}

/// An optional value as a sequence.
pub open spec fn units_of(value: Option<Vec<u16>>) -> Option<Seq<u16>> {
    match value {
        Some(units) => Some(units@),
        None => None,
    }
}

/// An optional path, where an empty one counts as none.
pub open spec fn path_of(value: Option<Vec<u16>>) -> Option<Seq<u16>> {
    match value {
        Some(units) if units@.len() > 0 => Some(units@),
        _ => None,
    }
}

fn non_empty(value: Option<Vec<u16>>) -> (path: Option<Vec<u16>>)
    ensures
        units_of(path) == path_of(value),
{
    match value {
        Some(units) => {
            if units.len() > 0 {
                Some(units)
            } else {
                None
            }
        },
        None => None,
    }
}

/// A folder in a library has an identity of its own, or its path serves as one.
pub open spec fn source_identity(item: SourceItem) -> Option<Seq<u16>> {
    match item.shell_identity {
        Some(identity) => Some(identity@),
        None => path_of(item.path),
    }
}

pub open spec fn all_identified(items: Seq<SourceItem>) -> bool {
    forall|i: int| 0 <= i < items.len() ==> source_identity(#[trigger] items[i]) is Some
}

pub open spec fn describes_source(source: LibrarySource, item: SourceItem) -> bool {
    Some(source.shell_identity@) == source_identity(item) && units_of(source.path) == path_of(
        item.path,
    )
}

pub open spec fn describes_sources(sources: Seq<LibrarySource>, items: Seq<SourceItem>) -> bool {
    sources.len() == items.len() && forall|i: int|
        0 <= i < sources.len() ==> describes_source(#[trigger] sources[i], items[i])
}

/// The folders of a library.
pub fn library_sources(items: Vec<SourceItem>) -> (result: Result<Vec<LibrarySource>, IoError>)
    ensures
        match result {
            Ok(sources) => all_identified(items@) && describes_sources(sources@, items@),
            Err(error) => !all_identified(items@) && errors::fails_with(
                error,
                ErrorKind::Other,
                "library source has no stable Shell identity"@,
            ),
        },
{
    let n: usize = items.len();
    let mut sources: Vec<LibrarySource> = Vec::new();
    let mut i: usize = 0;
    while i < n
        invariant
            n == items@.len(),
            i <= n,
            describes_sources(sources@, items@.subrange(0, i as int)),
            forall|j: int| 0 <= j < i ==> source_identity(#[trigger] items@[j]) is Some,
        decreases n - i,
    {
        let path = match &items[i].path {
            Some(path) => {
                if path.len() > 0 {
                    Some(units_copy_all(path.as_slice()))
                } else {
                    None
                }
            },
            None => None,
        };
        let shell_identity = match &items[i].shell_identity {
            Some(identity) => units_copy_all(identity.as_slice()),
            None => match &path {
                Some(path) => units_copy_all(path.as_slice()),
                None => {
                    assert(source_identity(items@[i as int]) is None);
                    return Err(
                        IoError::new(
                            ErrorKind::Other,
                            "library source has no stable Shell identity",
                        ),
                    );
                },
            },
        };
        let source = LibrarySource { shell_identity, path };
        proof {
            assert(describes_source(source, items@[i as int]));
            let next = items@.subrange(0, i + 1);
            assert forall|j: int| 0 <= j < sources@.push(source).len() implies describes_source(
                #[trigger] sources@.push(source)[j],
                next[j],
            ) by {
                if j < i {
                    assert(describes_source(sources@[j], items@.subrange(0, i as int)[j]));
                }
            }
        }
        sources.push(source);
        i += 1;
    }
    assert(items@.subrange(0, i as int) =~= items@);
    Ok(sources)
}

/// What becomes of an item of the Shell.
pub enum LibraryOutcome {
    Shown,
    /// The library is not shown in the navigation pane.
    Hidden,
    /// It could not be read: the kind of failure, the code of the system, and the reason.
    Failed(ErrorKind, Option<i32>, Seq<char>),
}

pub open spec fn failed_read(error: IoError) -> LibraryOutcome {
    LibraryOutcome::Failed(error.kind, error.code, error.message@)
}

pub open spec fn library_outcome(item: LibraryItem) -> LibraryOutcome {
    match (item.shell_identity, item.pinned, item.display_name, item.sources) {
        (Err(error), _, _, _) => failed_read(error),
        (_, Err(error), _, _) => failed_read(error),
        (_, Ok(false), _, _) => LibraryOutcome::Hidden,
        (_, _, Err(error), _) => failed_read(error),
        (_, _, _, Err(error)) => failed_read(error),
        (_, _, _, Ok(sources)) => if all_identified(sources@) {
            LibraryOutcome::Shown
        } else {
            LibraryOutcome::Failed(
                ErrorKind::Other,
                None,
                "library source has no stable Shell identity"@,
            )
        },
    }
}

/// The library shows what the Shell says of the item.
pub open spec fn describes_library(library: WindowsLibrary, item: LibraryItem, sort_order: u32) -> bool {
    &&& item.shell_identity matches Ok(identity) && library.id.0@ == identity@
    &&& item.display_name matches Ok(name) && library.display_name@ == name@
    &&& item.sources matches Ok(sources) && describes_sources(library.sources@, sources@)
    &&& library.pinned
    &&& library.sort_order == sort_order
    &&& units_of(library.definition_path) == path_of(item.definition_path)
    &&& units_of(library.default_save_path) == path_of(item.default_save_path)
}

pub fn map_library(item: LibraryItem, sort_order: u32) -> (result: Result<
    Option<WindowsLibrary>,
    IoError,
>)
    ensures
        match library_outcome(item) {
            LibraryOutcome::Shown => result matches Ok(Some(library)) && describes_library(
                library,
                item,
                sort_order,
            ),
            LibraryOutcome::Hidden => result == Ok::<Option<WindowsLibrary>, IoError>(None),
            LibraryOutcome::Failed(kind, code, message) => result matches Err(error) && error.kind
                == kind && error.code == code && error.message@ == message,
        },
{
    let shell_identity = match item.shell_identity {
        Ok(identity) => identity,
        Err(error) => {
            return Err(error);
        },
    };
    match item.pinned {
        Ok(pinned) => {
            if !pinned {
                return Ok(None);
            }
        },
        Err(error) => {
            return Err(error);
        },
    }
    let display_name = match item.display_name {
        Ok(name) => name,
        Err(error) => {
            return Err(error);
        },
    };
    let sources = match item.sources {
        Ok(items) => match library_sources(items) {
            Ok(sources) => sources,
            Err(error) => {
                return Err(error);
            },
        },
        Err(error) => {
            return Err(error);
        },
    };
    Ok(
        Some(
            WindowsLibrary {
                id: LibraryId(shell_identity),
                definition_path: non_empty(item.definition_path),
                display_name,
                pinned: true,
                sort_order,
                sources,
                default_save_path: non_empty(item.default_save_path),
            },
        ),
    )
}

/// The positions of the items that are shown.
pub open spec fn shown_items(items: Seq<LibraryItem>) -> Seq<int>
    decreases items.len(),
{
    if items.len() == 0 {
        Seq::empty()
    } else {
        let before = shown_items(items.drop_last());
        if library_outcome(items.last()) is Shown {
            before.push(items.len() - 1)
        } else {
            before
        }
    }
}

/// The positions of the items that could not be read.
pub open spec fn failed_items(items: Seq<LibraryItem>) -> Seq<int>
    decreases items.len(),
{
    if items.len() == 0 {
        Seq::empty()
    } else {
        let before = failed_items(items.drop_last());
        if library_outcome(items.last()) is Failed {
            before.push(items.len() - 1)
        } else {
            before
        }
    }
}

pub open spec fn identity_of(item: LibraryItem) -> Option<Seq<u16>> {
    match item.shell_identity {
        Ok(identity) => Some(identity@),
        Err(_) => None,
    }
}

/// The failure says which item could not be read, and why.
pub open spec fn describes_failure(failure: LibraryFailure, item: LibraryItem) -> bool {
    &&& units_of(failure.shell_identity) == identity_of(item)
    &&& library_outcome(item) matches LibraryOutcome::Failed(_, _, message) && message
        == failure.message@
}

pub open spec fn enumerates(enumeration: LibraryEnumeration, items: Seq<LibraryItem>) -> bool {
    &&& enumeration.libraries@.len() == shown_items(items).len()
    &&& forall|i: int|
        0 <= i < enumeration.libraries@.len() ==> describes_library(
            #[trigger] enumeration.libraries@[i],
            items[shown_items(items)[i]],
            shown_items(items)[i] as u32,
        )
    &&& enumeration.failures@.len() == failed_items(items).len()
    &&& forall|i: int|
        0 <= i < enumeration.failures@.len() ==> describes_failure(
            #[trigger] enumeration.failures@[i],
            items[failed_items(items)[i]],
        )
}

proof fn lemma_positions(items: Seq<LibraryItem>)
    ensures
        forall|i: int|
            0 <= i < shown_items(items).len() ==> i <= #[trigger] shown_items(items)[i]
                < items.len(),
        forall|i: int|
            0 <= i < failed_items(items).len() ==> i <= #[trigger] failed_items(items)[i]
                < items.len(),
        shown_items(items).len() <= items.len(),
        failed_items(items).len() <= items.len(),
    decreases items.len(),
{
    if items.len() > 0 {
        lemma_positions(items.drop_last());
    }
}

/// The libraries among the items, in their order, and the items that could not be read.
pub fn map_shell_items(items: Vec<LibraryItem>) -> (enumeration: LibraryEnumeration)
    ensures
        enumerates(enumeration, items@),
{
    let ghost all = items@;
    let count: usize = items.len();
    let mut left = items;
    let mut enumeration = LibraryEnumeration::default();
    let mut order: usize = 0;
    assert(left@ =~= all.subrange(0, all.len() as int));
    assert(all.subrange(0, 0).len() == 0);
    while left.len() > 0
        invariant
            0 <= order <= all.len(),
            all.len() == count,
            left@ == all.subrange(order as int, all.len() as int),
            enumerates(enumeration, all.subrange(0, order as int)),
        decreases left@.len(),
    {
        let ghost seen = all.subrange(0, order as int);
        let ghost next = all.subrange(0, order + 1);
        proof {
            assert(next.drop_last() =~= seen);
            assert(next.last() == left@[0]);
            lemma_positions(seen);
        }
        let item = left.remove(0);
        assert(left@ =~= all.subrange(order + 1, all.len() as int));
        let identity = match &item.shell_identity {
            Ok(identity) => Some(units_copy_all(identity.as_slice())),
            Err(_) => None,
        };
        let ghost before = enumeration;
        match map_library(item, order as u32) {
            Ok(Some(library)) => {
                enumeration.libraries.push(library);
            },
            Ok(None) => {},
            Err(error) => {
                enumeration.failures.push(
                    LibraryFailure { shell_identity: identity, message: error.message },
                );
            },
        }
        proof {
            assert forall|i: int| 0 <= i < enumeration.libraries@.len() implies describes_library(
                #[trigger] enumeration.libraries@[i],
                next[shown_items(next)[i]],
                shown_items(next)[i] as u32,
            ) by {
                if i < before.libraries@.len() {
                    assert(describes_library(
                        before.libraries@[i],
                        seen[shown_items(seen)[i]],
                        shown_items(seen)[i] as u32,
                    ));
                }
            }
            assert forall|i: int| 0 <= i < enumeration.failures@.len() implies describes_failure(
                #[trigger] enumeration.failures@[i],
                next[failed_items(next)[i]],
            ) by {
                if i < before.failures@.len() {
                    assert(describes_failure(
                        before.failures@[i],
                        seen[failed_items(seen)[i]],
                    ));
                }
            }
        }
        order += 1;
    }
    assert(all.subrange(0, order as int) =~= all);
    enumeration
}

/// One step through the folder of the libraries: how many items it gave, whether it failed, and
/// the item.
#[derive(Debug)]
pub struct ItemRead {
    pub fetched: u32,
    pub error: Option<IoError>,
    pub item: Option<LibraryItem>,
}

/// The items that the steps give. The walk ends with the first step that gives none, and fails
/// with the first that fails before it.
pub open spec fn walked(reads: Seq<ItemRead>) -> Result<Seq<LibraryItem>, IoError>
    decreases reads.len(),
{
    if reads.len() == 0 || reads[0].fetched == 0 {
        Ok(Seq::empty())
    } else {
        match reads[0].error {
            Some(error) => Err(error),
            None => match walked(reads.drop_first()) {
                Err(error) => Err(error),
                Ok(rest) => match reads[0].item {
                    Some(item) => Ok(seq![item] + rest),
                    None => Ok(rest),
                },
            },
        }
    }
}

/// The libraries that a walk through their folder finds.
pub fn enumerate(reads: Vec<ItemRead>) -> (result: Result<LibraryEnumeration, IoError>)
    ensures
        match (result, walked(reads@)) {
            (Ok(enumeration), Ok(items)) => enumerates(enumeration, items),
            (Err(error), Err(found)) => error == found,
            _ => false,
        },
{
    let mut left = reads;
    let mut items: Vec<LibraryItem> = Vec::new();
    assert(walked(reads@) == (match walked(left@) {
        Err(error) => Err::<Seq<LibraryItem>, IoError>(error),
        Ok(rest) => Ok(items@ + rest),
    })) by {
        if let Ok(rest) = walked(left@) {
            assert(items@ + rest =~= rest);
        }
    }
    while left.len() > 0
        invariant_except_break
            walked(reads@) == (match walked(left@) {
                Err(error) => Err::<Seq<LibraryItem>, IoError>(error),
                Ok(rest) => Ok(items@ + rest),
            }),
        ensures
            walked(reads@) == Ok::<Seq<LibraryItem>, IoError>(items@),
        decreases left@.len(),
    {
        let ghost all = left@;
        let ghost known = items@;
        let read = left.remove(0);
        assert(left@ =~= all.drop_first());
        if read.fetched == 0 {
            assert(known + Seq::<LibraryItem>::empty() =~= known);
            break;
        }
        if let Some(error) = read.error {
            return Err(error);
        }
        if let Some(item) = read.item {
            items.push(item);
            proof {
                if let Ok(rest) = walked(left@) {
                    assert(known + (seq![item] + rest) =~= items@ + rest);
                }
            }
        }
        assert(items@ + Seq::<LibraryItem>::empty() =~= items@);
    }
    Ok(map_shell_items(items))
}

/// The folder of the libraries must have a path.
pub fn folder_path(path: Vec<u16>) -> (result: Result<Vec<u16>, IoError>)
    ensures
        match result {
            Ok(found) => path@.len() > 0 && found == path,
            Err(error) => path@.len() == 0 && errors::fails_with(
                error,
                ErrorKind::Other,
                "Windows Libraries folder path is empty"@,
            ),
        },
{
    if path.len() == 0 {
        Err(IoError::new(ErrorKind::Other, "Windows Libraries folder path is empty"))
    } else {
        Ok(path)
    }
}

/// The libraries that are shown are pinned, keep the order of the Shell, and an item is either
/// shown, hidden or reported.
pub proof fn law_enumeration_keeps_the_order(enumeration: LibraryEnumeration, items: Seq<
    LibraryItem,
>, i: int)
    requires
        enumerates(enumeration, items),
        items.len() <= u32::MAX,
        0 <= i < enumeration.libraries@.len(),
    ensures
        enumeration.libraries@[i].pinned,
        enumeration.libraries@[i].sort_order >= i,
        i + 1 < enumeration.libraries@.len() ==> enumeration.libraries@[i].sort_order
            < enumeration.libraries@[i + 1].sort_order,
        enumeration.libraries@.len() + enumeration.failures@.len() <= items.len(),
{
    lemma_positions(items);
    lemma_rising(items, i);
    lemma_counts(items);
    assert(describes_library(
        enumeration.libraries@[i],
        items[shown_items(items)[i]],
        shown_items(items)[i] as u32,
    ));
    if i + 1 < enumeration.libraries@.len() {
        assert(describes_library(
            enumeration.libraries@[i + 1],
            items[shown_items(items)[i + 1]],
            shown_items(items)[i + 1] as u32,
        ));
    }
}

proof fn lemma_rising(items: Seq<LibraryItem>, i: int)
    requires
        0 <= i,
    ensures
        i + 1 < shown_items(items).len() ==> shown_items(items)[i] < shown_items(items)[i + 1],
    decreases items.len(),
{
    if items.len() > 0 {
        lemma_rising(items.drop_last(), i);
        lemma_positions(items.drop_last());
    }
}

proof fn lemma_counts(items: Seq<LibraryItem>)
    ensures
        shown_items(items).len() + failed_items(items).len() <= items.len(),
    decreases items.len(),
{
    if items.len() > 0 {
        lemma_counts(items.drop_last());
    }
}

/// A library is shown exactly where it is pinned and everything about it could be read; what is shown
/// is what the Shell says, and an empty path counts as none.
pub proof fn law_a_library_is_shown_as_the_shell_says(
    item: LibraryItem,
    sort_order: u32,
    result: Result<Option<WindowsLibrary>, IoError>,
)
    requires
        call_ensures(map_library, (item, sort_order), result),
    ensures
        item.shell_identity is Err ==> result is Err && result->Err_0.message@
            == item.shell_identity->Err_0.message@,
        item.shell_identity is Ok && item.pinned is Err ==> result is Err
            && result->Err_0.message@ == item.pinned->Err_0.message@,
        item.shell_identity is Ok && item.pinned == Ok::<bool, IoError>(false) ==> result == Ok::<
            Option<WindowsLibrary>,
            IoError,
        >(None),
        result matches Ok(Some(library)) ==> {
            &&& item.pinned == Ok::<bool, IoError>(true)
            &&& item.shell_identity is Ok && library.id.0@ == item.shell_identity->Ok_0@
            &&& item.display_name is Ok && library.display_name@ == item.display_name->Ok_0@
            &&& library.sort_order == sort_order && library.pinned
            &&& item.sources is Ok && library.sources@.len() == item.sources->Ok_0@.len()
            &&& library.definition_path is Some <==> item.definition_path is Some
                && item.definition_path->0@.len() > 0
            &&& library.definition_path is Some ==> library.definition_path->0@
                == item.definition_path->0@
            &&& library.default_save_path is Some <==> item.default_save_path is Some
                && item.default_save_path->0@.len() > 0
            &&& library.default_save_path is Some ==> library.default_save_path->0@
                == item.default_save_path->0@
        },
        item.shell_identity is Ok && item.pinned == Ok::<bool, IoError>(true)
            && item.display_name is Ok && item.sources is Ok && (forall|i: int|
            0 <= i < item.sources->Ok_0@.len() ==> (
            #[trigger] item.sources->Ok_0@[i]).shell_identity is Some) ==> result is Ok
            && result->Ok_0 is Some,
{
}

/// The folders of a library are those that the Shell names, in its order: each under its own identity,
/// or under its path where it has none.
pub proof fn law_sources_keep_their_identity(
    items: Vec<SourceItem>,
    result: Result<Vec<LibrarySource>, IoError>,
    i: int,
)
    requires
        call_ensures(library_sources, (items,), result),
        0 <= i < items@.len(),
    ensures
        result is Ok ==> {
            let source = result->Ok_0@[i];
            let item = items@[i];
            &&& result->Ok_0@.len() == items@.len()
            &&& item.shell_identity is Some ==> source.shell_identity@ == item.shell_identity->0@
            &&& item.shell_identity is None ==> item.path is Some && item.path->0@.len() > 0
                && source.shell_identity@ == item.path->0@
            &&& source.path is Some <==> item.path is Some && item.path->0@.len() > 0
            &&& source.path is Some ==> source.path->0@ == item.path->0@
        },
        items@[i].shell_identity is None && items@[i].path is None ==> result is Err,
        (forall|k: int| 0 <= k < items@.len() ==> (#[trigger] items@[k]).shell_identity is Some)
            ==> result is Ok,
{
    assert(result is Ok ==> describes_source(result->Ok_0@[i], items@[i]));
    assert(all_identified(items@) ==> source_identity(items@[i]) is Some);
}

/// One more item of the Shell adds one library behind the others, with its place in the list, where
/// it is shown; one failure that says why, where it could not be read; and nothing where it is hidden.
pub proof fn law_each_library_is_listed_or_reported(
    items: Vec<LibraryItem>,
    item: LibraryItem,
    more: Vec<LibraryItem>,
    before: LibraryEnumeration,
    after: LibraryEnumeration,
    alone: Result<Option<WindowsLibrary>, IoError>,
)
    requires
        items@.len() < u32::MAX,
        more@ == items@.push(item),
        call_ensures(map_shell_items, (items,), before),
        call_ensures(map_shell_items, (more,), after),
        call_ensures(map_library, (item, items@.len() as u32), alone),
    ensures
        ({
            let shown = alone matches Ok(Some(_));
            &&& after.libraries@.len() == before.libraries@.len() + if shown {
                1int
            } else {
                0int
            }
            &&& after.failures@.len() == before.failures@.len() + if alone is Err {
                1int
            } else {
                0int
            }
            &&& forall|i: int|
                0 <= i < before.libraries@.len() ==> (#[trigger] after.libraries@[i]).id.0@
                    == before.libraries@[i].id.0@ && after.libraries@[i].display_name@
                    == before.libraries@[i].display_name@ && after.libraries@[i].sort_order
                    == before.libraries@[i].sort_order
            &&& forall|i: int|
                0 <= i < before.failures@.len() ==> (#[trigger] after.failures@[i]).message@
                    == before.failures@[i].message@
            &&& shown ==> after.libraries@.last().id.0@ == alone->Ok_0->0.id.0@
                && after.libraries@.last().display_name@ == alone->Ok_0->0.display_name@
                && after.libraries@.last().sort_order == items@.len()
            &&& alone is Err ==> after.failures@.last().message@ == alone->Err_0.message@
        }),
{
    lemma_positions(items@);
    lemma_positions(more@);
    assert(more@.drop_last() =~= items@);
    let s = shown_items(items@);
    let f = failed_items(items@);
    let s2 = shown_items(more@);
    let f2 = failed_items(more@);
    assert forall|i: int| 0 <= i < before.libraries@.len() implies (
    #[trigger] after.libraries@[i]).id.0@ == before.libraries@[i].id.0@
        && after.libraries@[i].display_name@ == before.libraries@[i].display_name@
        && after.libraries@[i].sort_order == before.libraries@[i].sort_order by {
        assert(s2[i] == s[i]);
        assert(describes_library(before.libraries@[i], items@[s[i]], s[i] as u32));
        assert(describes_library(after.libraries@[i], more@[s2[i]], s2[i] as u32));
        assert(more@[s[i]] == items@[s[i]]);
    }
    assert forall|i: int| 0 <= i < before.failures@.len() implies (
    #[trigger] after.failures@[i]).message@ == before.failures@[i].message@ by {
        assert(f2[i] == f[i]);
        assert(describes_failure(before.failures@[i], items@[f[i]]));
        assert(describes_failure(after.failures@[i], more@[f2[i]]));
        assert(more@[f[i]] == items@[f[i]]);
    }
    if library_outcome(item) is Shown {
        let n = s.len() as int;
        assert(s2[n] == items@.len());
        assert(describes_library(after.libraries@[n], more@[s2[n]], s2[n] as u32));
    }
    if library_outcome(item) is Failed {
        let n = f.len() as int;
        assert(f2[n] == items@.len());
        assert(describes_failure(after.failures@[n], more@[f2[n]]));
    }
}

/// The list of the Shell is read to its end: an item that was fetched is there, and an error on the
/// way is the error of the whole.
pub proof fn law_reading_stops_at_an_error(
    reads: Vec<ItemRead>,
    result: Result<LibraryEnumeration, IoError>,
    at: int,
)
    requires
        call_ensures(enumerate, (reads,), result),
        0 <= at < reads@.len(),
        forall|i: int|
            0 <= i < at ==> (#[trigger] reads@[i]).fetched != 0 && reads@[i].error is None,
        reads@[at].fetched != 0,
    ensures
        reads@[at].error matches Some(error) ==> result == Err::<LibraryEnumeration, IoError>(error),
{
    lemma_walked_error(reads@, at);
}

proof fn lemma_walked_error(reads: Seq<ItemRead>, at: int)
    requires
        0 <= at < reads.len(),
        forall|i: int| 0 <= i < at ==> (#[trigger] reads[i]).fetched != 0 && reads[i].error is None,
        reads[at].fetched != 0,
    ensures
        reads[at].error matches Some(error) ==> walked(reads) == Err::<Seq<LibraryItem>, IoError>(
            error,
        ),
    decreases at,
{
    if at > 0 {
        let rest = reads.drop_first();
        assert(reads[0].fetched != 0);
        assert(rest[at - 1] == reads[at]);
        assert forall|i: int| 0 <= i < at - 1 implies (#[trigger] rest[i]).fetched != 0
            && rest[i].error is None by {
            assert(rest[i] == reads[i + 1]);
        }
        lemma_walked_error(rest, at - 1);
    }
}

} // verus!
