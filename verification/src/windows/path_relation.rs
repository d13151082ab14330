//! Whether a destination lies inside the folder that is copied or moved there.
use vstd::prelude::*;

use crate::errors::{ErrorKind, IoError};
use crate::winpath;
use crate::winpath::{parent_of, units_copy_all};

verus! {

/// The identity of a file: its volume and its number there.
#[derive(Debug, Clone, Copy, PartialEq, Eq)]
pub struct FileIdentity {
    pub volume: u64,
    pub file: [u8; 16],
}

pub open spec fn same_file(a: FileIdentity, b: FileIdentity) -> bool {
    a.volume == b.volume && a.file@ == b.file@
}

pub fn identities_equal(a: &FileIdentity, b: &FileIdentity) -> (equal: bool)
    ensures
        equal == same_file(*a, *b),
{
    if a.volume != b.volume {
        return false;
    }
    let mut i: usize = 0;
    while i < 16
        invariant
            i <= 16,
            forall|j: int| 0 <= j < i ==> a.file@[j] == b.file@[j],
        decreases 16 - i,
    {
        if a.file[i] != b.file[i] {
            return false;
        }
        i += 1;
    }
    assert(a.file@ =~= b.file@);
    true
}

/// Why the question could not be answered.
#[derive(Debug)]
pub enum RelationError {
    Cancelled,
    Io { path: Vec<u16>, error: IoError },
}

pub fn check_cancel(cancelled: bool) -> (result: Result<(), RelationError>)
    ensures
        result is Ok <==> !cancelled,
        result matches Err(error) ==> error is Cancelled,
{
    if cancelled {
        Err(RelationError::Cancelled)
    } else {
        Ok(())
    }
}

/// A failure at a path.
pub open spec fn fails_at(error: RelationError, path: Seq<u16>, cause: IoError) -> bool {
    error matches RelationError::Io { path: at, error: e } && at@ == path && e == cause
}

/// Where the search for the nearest existing folder goes on.
#[derive(Debug)]
pub enum LocateStep {
    /// The path exists: resolve it.
    Resolve,
    /// The path does not exist: look at this one.
    Climb(Vec<u16>),
    Fail(RelationError),
}

/// A step of that search, given how the look at a path ended.
pub fn locate_step(existing: &[u16], failure: Option<IoError>) -> (step: LocateStep)
    ensures
        match failure {
            None => step is Resolve,
            Some(error) => match winpath::path_parent(existing@) {
                Some(parent) if error.kind == ErrorKind::NotFound => step matches LocateStep::Climb(
                    next,
                ) && next@ == parent,
                _ => step matches LocateStep::Fail(failed) && fails_at(failed, existing@, error),
            },
        },
        step matches LocateStep::Climb(next) ==> next@.len() < existing@.len(),
{
    match failure {
        None => LocateStep::Resolve,
        Some(error) => {
            if error.kind == ErrorKind::NotFound {
                match parent_of(existing) {
                    Some(parent) => {
                        proof {
                            winpath::lemma_parent_is_shorter(existing@);
                        }
                        return LocateStep::Climb(parent);
                    },
                    None => {},
                }
            }
            LocateStep::Fail(RelationError::Io { path: units_copy_all(existing), error })
        },
    }
}

/// A path and all its parents, from the path itself outwards.
pub open spec fn ancestors_of(path: Seq<u16>) -> Seq<Seq<u16>>
    decreases path.len(),
{
    match winpath::path_parent(path) {
        Some(parent) => {
            proof {
                winpath::lemma_parent_is_shorter(path);
            }
            seq![path] + ancestors_of(parent)
        },
        None => seq![path],
    }
}

pub fn ancestors(path: &[u16]) -> (chain: Vec<Vec<u16>>)
    ensures
        winpath::path_views(chain@) == ancestors_of(path@),
{
    let mut chain: Vec<Vec<u16>> = Vec::new();
    let mut current = units_copy_all(path);
    loop
        invariant_except_break
            winpath::path_views(chain@) + ancestors_of(current@) == ancestors_of(path@),
        ensures
            winpath::path_views(chain@) == ancestors_of(path@),
        decreases current@.len(),
    {
        let next = parent_of(current.as_slice());
        let ghost before = chain@;
        let ghost here = current@;
        chain.push(current);
        proof {
            assert(winpath::path_views(chain@) =~= winpath::path_views(before) + seq![here]);
        }
        match next {
            Some(parent) => {
                proof {
                    winpath::lemma_parent_is_shorter(here);
                    assert(winpath::path_views(chain@) + ancestors_of(parent@)
                        =~= winpath::path_views(before) + ancestors_of(here));
                }
                current = parent;
            },
            None => {
                break;
            },
        }
    }
    chain
}

/// What the look at a parent of the destination gave.
#[derive(Debug)]
pub enum AncestorProbe {
    /// The work was cancelled before the look.
    Cancelled,
    Identity(FileIdentity),
    Failed(IoError),
}

/// The walk outwards ends with this look: further parents are not looked at.
pub open spec fn decides(source: FileIdentity, probe: AncestorProbe) -> bool {
    match probe {
        AncestorProbe::Cancelled => true,
        AncestorProbe::Identity(identity) => same_file(identity, source),
        AncestorProbe::Failed(_) => true,
    }
}

pub fn ancestor_decides(source: &FileIdentity, probe: &AncestorProbe) -> (decided: bool)
    ensures
        decided == decides(*source, *probe),
{
    match probe {
        AncestorProbe::Cancelled => true,
        AncestorProbe::Identity(identity) => identities_equal(identity, source),
        AncestorProbe::Failed(_) => true,
    }
}

/// The walk ends at this parent.
pub open spec fn first_decided(source: FileIdentity, seen: Seq<AncestorProbe>, at: int) -> bool {
    &&& 0 <= at < seen.len()
    &&& decides(source, seen[at])
    &&& forall|i: int| 0 <= i < at ==> !decides(source, #[trigger] seen[i])
}

/// What the walk answers where it ends with this look.
pub open spec fn answers(
    result: Result<bool, RelationError>,
    ancestor: Seq<u16>,
    probe: AncestorProbe,
) -> bool {
    match probe {
        AncestorProbe::Cancelled => result matches Err(error) && error is Cancelled,
        AncestorProbe::Identity(_) => result == Ok::<bool, RelationError>(true),
        AncestorProbe::Failed(cause) => result matches Err(error) && fails_at(
            error,
            ancestor,
            cause,
        ),
    }
}

/// Whether the source is among the parents of the resolved destination, from the destination
/// itself outwards. The first look that finds the source, fails or was cancelled ends the walk;
/// `seen` holds the looks up to that one, or all of them where there is none.
pub fn destination_is_within_source(
    source: &FileIdentity,
    ancestors: &[Vec<u16>],
    seen: Vec<AncestorProbe>,
    cancelled_at_end: bool,
) -> (result: Result<bool, RelationError>)
    requires
        seen@.len() <= ancestors@.len(),
        seen@.len() == ancestors@.len() || exists|at: int| first_decided(*source, seen@, at),
    ensures
        forall|at: int| #[trigger]
            first_decided(*source, seen@, at) ==> answers(result, ancestors@[at]@, seen@[at]),
        (forall|i: int| 0 <= i < seen@.len() ==> !decides(*source, #[trigger] seen@[i])) ==> (
        if cancelled_at_end {
            result matches Err(error) && error is Cancelled
        } else {
            result == Ok::<bool, RelationError>(false)
        }),
{
    let mut seen = seen;
    let n: usize = seen.len();
    let ghost all = seen@;
    let mut i: usize = 0;
    while i < n
        invariant
            n == seen@.len() == all.len() <= ancestors@.len(),
            seen@ == all,
            i <= n,
            forall|j: int| 0 <= j < i ==> !decides(*source, #[trigger] all[j]),
        ensures
            seen@ == all,
            i == n || first_decided(*source, all, i as int),
            forall|j: int| 0 <= j < i ==> !decides(*source, #[trigger] all[j]),
            i <= n,
        decreases n - i,
    {
        if ancestor_decides(source, &seen[i]) {
            break;
        }
        i += 1;
    }
    if i == n {
        check_cancel(cancelled_at_end)?;
        return Ok(false);
    }
    match seen.remove(i) {
        AncestorProbe::Cancelled => Err(RelationError::Cancelled),
        AncestorProbe::Identity(_) => Ok(true),
        AncestorProbe::Failed(error) => Err(
            RelationError::Io { path: units_copy_all(ancestors[i].as_slice()), error },
        ),
    }
}

/// The chain begins with the path, and each entry is the parent of the one before it.
pub proof fn law_ancestors_form_a_chain(path: Seq<u16>, i: int)
    requires
        0 <= i < ancestors_of(path).len(),
    ensures
        ancestors_of(path)[0] == path,
        i + 1 < ancestors_of(path).len() ==> winpath::path_parent(ancestors_of(path)[i]) == Some(
            ancestors_of(path)[i + 1],
        ),
        i + 1 == ancestors_of(path).len() ==> winpath::path_parent(ancestors_of(path)[i]) is None,
    decreases path.len(),
{
    match winpath::path_parent(path) {
        Some(parent) => {
            winpath::lemma_parent_is_shorter(path);
            assert(ancestors_of(parent).len() > 0);
            law_ancestors_form_a_chain(parent, 0);
            if i > 0 {
                law_ancestors_form_a_chain(parent, i - 1);
            }
        },
        None => {},
    }
}

/// Two identities are of one file exactly where the volume and every byte agree.
pub proof fn law_identities_are_compared_whole(a: FileIdentity, b: FileIdentity, equal: bool)
    requires
        call_ensures(identities_equal, (&a, &b), equal),
    ensures
        equal <==> a.volume == b.volume && forall|i: int|
            0 <= i < 16 ==> #[trigger] a.file@[i] == b.file@[i],
{
    if a.volume == b.volume && forall|i: int| 0 <= i < 16 ==> #[trigger] a.file@[i] == b.file@[i] {
        assert(a.file@ =~= b.file@);
    }
}

/// A destination lies within the source where one of its folders is the source, as long as each
/// folder before that one could be read and nobody cancelled; and it does not where each was read and
/// none is.
pub proof fn law_within_is_found_on_the_way_up(
    source: FileIdentity,
    ancestors: &[Vec<u16>],
    seen: Vec<AncestorProbe>,
    at: int,
    result: Result<bool, RelationError>,
)
    requires
        call_ensures(destination_is_within_source, (&source, ancestors, seen, false), result),
        forall|i: int| 0 <= i < at ==> (#[trigger] seen@[i]) is Identity,
        forall|i: int|
            0 <= i < at ==> (#[trigger] seen@[i])->Identity_0.file@ != source.file@
                || seen@[i]->Identity_0.volume != source.volume,
        0 <= at <= seen@.len(),
    ensures
        at == seen@.len() ==> result == Ok::<bool, RelationError>(false),
        at < seen@.len() && seen@[at] is Identity && seen@[at]->Identity_0.file@ == source.file@
            && seen@[at]->Identity_0.volume == source.volume ==> result == Ok::<
            bool,
            RelationError,
        >(true),
        at < seen@.len() && seen@[at] is Cancelled ==> result is Err && result->Err_0 is Cancelled,
        at < seen@.len() && seen@[at] is Failed ==> (result matches Err(
            RelationError::Io { path, error },
        ) && path@ == ancestors@[at]@ && error == seen@[at]->Failed_0),
{
    if at < seen@.len() && decides(source, seen@[at]) {
        assert(first_decided(source, seen@, at));
    }
}

/// The folders above a path are looked at from the path itself upwards, each the parent of the one
/// before, to the one that has none.
pub proof fn law_the_way_leads_up(path: &[u16], chain: Vec<Vec<u16>>, i: int)
    requires
        call_ensures(ancestors, (path,), chain),
        0 <= i < chain@.len(),
    ensures
        chain@.len() > 0,
        chain@[0]@ == path@,
        i + 1 < chain@.len() ==> winpath::path_parent(chain@[i]@) == Some(chain@[i + 1]@)
            && chain@[i + 1]@.len() < chain@[i]@.len(),
        i + 1 == chain@.len() ==> winpath::path_parent(chain@[i]@) is None,
{
    let views = winpath::path_views(chain@);
    assert(views.len() == chain@.len());
    assert(views[0] == chain@[0]@ && views[i] == chain@[i]@);
    law_ancestors_form_a_chain(path@, i);
    if i + 1 < chain@.len() {
        assert(views[i + 1] == chain@[i + 1]@);
        winpath::lemma_parent_is_shorter(chain@[i]@);
    }
}

/// The search for an existing folder climbs only where a path is not found, and then to its parent.
pub proof fn law_the_search_climbs_past_missing_folders(
    existing: &[u16],
    failure: Option<IoError>,
    step: LocateStep,
)
    requires
        call_ensures(locate_step, (existing, failure), step),
    ensures
        step is Resolve <==> failure is None,
        step matches LocateStep::Climb(next) ==> failure is Some && failure->0.kind
            == ErrorKind::NotFound && winpath::path_parent(existing@) == Some(next@),
        failure is Some && failure->0.kind != ErrorKind::NotFound ==> step is Fail,
        step matches LocateStep::Fail(error) ==> (error matches RelationError::Io { path, error: e }
            && path@ == existing@ && e == failure->0),
{
}

} // verus!
