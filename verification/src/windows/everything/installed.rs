//! Where installations of Everything are looked for.
use vstd::prelude::*;

use crate::text;
use crate::text::{encode_text, text_of};
use crate::windows::everything;
use crate::windows::everything::{EverythingInstallation, Installation};
use crate::winpath;
use crate::winpath::{join, units_copy_all};

verus! {

/// A key of the registry that names an installation in its value `ExePath`.
#[derive(Debug, Clone, Copy)]
pub struct RegistryPlace {
    /// The key belongs to the machine, not to the user.
    pub machine: bool,
    pub key: &'static str,
    pub instance: &'static str,
}

/// The same as a mathematical value.
pub struct Place {
    pub machine: bool,
    pub key: Seq<char>,
    pub instance: Seq<char>,
}

impl View for RegistryPlace {
    type V = Place;

    open spec fn view(&self) -> Place {
        Place { machine: self.machine, key: self.key@, instance: self.instance@ }
    }
}

pub open spec fn places(raw: Seq<RegistryPlace>) -> Seq<Place> {
    Seq::new(raw.len(), |i: int| raw[i]@)
}

/// The alpha version before the released one, and the machine before the user.
pub open spec fn all_places() -> Seq<Place> {
    let alpha = "Software\\voidtools\\Everything 1.5a"@;
    let released = "Software\\voidtools\\Everything"@;
    seq![
        Place { machine: true, key: alpha, instance: "1.5a"@ },
        Place { machine: false, key: alpha, instance: "1.5a"@ },
        Place { machine: true, key: released, instance: ""@ },
        Place { machine: false, key: released, instance: ""@ },
    ]
}

pub fn registry_places() -> (found: Vec<RegistryPlace>)
    ensures
        places(found@) == all_places(),
{
    let alpha = "Software\\voidtools\\Everything 1.5a";
    let released = "Software\\voidtools\\Everything";
    let found = vec![
        RegistryPlace { machine: true, key: alpha, instance: "1.5a" },
        RegistryPlace { machine: false, key: alpha, instance: "1.5a" },
        RegistryPlace { machine: true, key: released, instance: "" },
        RegistryPlace { machine: false, key: released, instance: "" },
    ];
    assert(places(found@) =~= all_places());
    found
}

/// The installations at the first places, given what stands there.
pub open spec fn registered(
    at: Seq<Place>,
    paths: Seq<Option<Vec<u16>>>,
    n: int,
) -> Seq<Installation>
    decreases n,
{
    if n <= 0 {
        Seq::empty()
    } else {
        let before = registered(at, paths, n - 1);
        match paths[n - 1] {
            Some(path) => before.push(
                Installation { path: path@, instance: at[n - 1].instance, running: false },
            ),
            None => before,
        }
    }
}

/// The installations that the registry names, given the path that stands at each place.
pub fn registry_installations(at: &[RegistryPlace], paths: &[Option<Vec<u16>>]) -> (found: Vec<
    EverythingInstallation,
>)
    requires
        at@.len() == paths@.len(),
    ensures
        everything::installations(found@) == registered(
            places(at@),
            paths@,
            paths@.len() as int,
        ),
{
    let mut found: Vec<EverythingInstallation> = Vec::new();
    let n: usize = paths.len();
    let mut i: usize = 0;
    assert(everything::installations(found@) =~= Seq::empty());
    while i < n
        invariant
            n == paths@.len(),
            at@.len() == n,
            i <= n,
            everything::installations(found@) == registered(places(at@), paths@, i as int),
        decreases n - i,
    {
        if let Some(path) = &paths[i] {
            let ghost before = found@;
            found.push(
                EverythingInstallation {
                    executable_path: units_copy_all(path.as_slice()),
                    instance_name: text_of(at[i].instance),
                    running: false,
                },
            );
            proof {
                let added = Installation {
                    path: path@,
                    instance: at@[i as int].instance@,
                    running: false,
                };
                assert(found@.last()@ == added);
                assert(everything::installations(found@) =~= everything::installations(before).push(
                    added,
                ));
            }
        }
        i += 1;
    }
    found
}

/// The programs that may stand below a folder for programs.
pub open spec fn programs_in(root: Option<Vec<u16>>) -> Seq<Seq<u16>> {
    match root {
        Some(root) => seq![
            winpath::joined(root@, text::utf16_encoded("Everything 1.5a\\Everything64.exe"@)),
            winpath::joined(root@, text::utf16_encoded("Everything\\Everything64.exe"@)),
        ],
        None => Seq::empty(),
    }
}

fn push_programs(found: &mut Vec<Vec<u16>>, root: &Option<Vec<u16>>)
    ensures
        winpath::path_views(final(found)@) == winpath::path_views(old(found)@) + programs_in(*root),
{
    if let Some(root) = root {
        let alpha = encode_text("Everything 1.5a\\Everything64.exe");
        let released = encode_text("Everything\\Everything64.exe");
        found.push(join(root.as_slice(), alpha.as_slice()));
        found.push(join(root.as_slice(), released.as_slice()));
    }
    assert(winpath::path_views(found@) =~= winpath::path_views(old(found)@) + programs_in(*root));
}

/// The programs that may stand in the folders for the programs of the machine and of the user.
pub fn common_paths(program_files: &Option<Vec<u16>>, local_app_data: &Option<Vec<u16>>) -> (found:
    Vec<Vec<u16>>)
    ensures
        winpath::path_views(found@) == programs_in(*program_files) + programs_in(*local_app_data),
{
    let mut found: Vec<Vec<u16>> = Vec::new();
    push_programs(&mut found, program_files);
    push_programs(&mut found, local_app_data);
    assert(winpath::path_views(found@) =~= programs_in(*program_files) + programs_in(
        *local_app_data,
    ));
    found
}

/// One more place in the registry adds one installation, at the path that is found there and under the
/// instance of the place, and nothing where no path is found.
pub proof fn law_each_place_is_looked_at(
    at: &[RegistryPlace],
    paths: &[Option<Vec<u16>>],
    place: RegistryPlace,
    path: Option<Vec<u16>>,
    more: &[RegistryPlace],
    more_paths: &[Option<Vec<u16>>],
    before: Vec<EverythingInstallation>,
    after: Vec<EverythingInstallation>,
)
    requires
        at@.len() == paths@.len(),
        more@ == at@.push(place),
        more_paths@ == paths@.push(path),
        call_ensures(registry_installations, (at, paths), before),
        call_ensures(registry_installations, (more, more_paths), after),
    ensures
        forall|i: int|
            0 <= i < before@.len() ==> (#[trigger] after@[i]).executable_path@
                == before@[i].executable_path@ && after@[i].instance_name@
                == before@[i].instance_name@,
        path is None ==> after@.len() == before@.len(),
        path matches Some(found) ==> after@.len() == before@.len() + 1
            && after@.last().executable_path@ == found@ && after@.last().instance_name@
            == place.instance@ && !after@.last().running,
{
    let n = paths@.len() as int;
    lemma_registered_prefix(places(at@), paths@, places(more@), more_paths@, n);
    let a = registered(places(at@), paths@, n);
    let b = registered(places(more@), more_paths@, n + 1);
    assert(a == everything::installations(before@) && b == everything::installations(after@));
    assert(a.len() == before@.len() && b.len() == after@.len());
    assert(places(more@)[n] == place@);
    assert forall|i: int| 0 <= i < before@.len() implies (#[trigger] after@[i]).executable_path@
        == before@[i].executable_path@ && after@[i].instance_name@ == before@[i].instance_name@ by {
        assert(a[i] == before@[i]@);
        assert(b[i] == after@[i]@);
    }
    if path is Some {
        let k = a.len() as int;
        assert(b[k] == after@[k]@);
    }
}

proof fn lemma_registered_prefix(
    at: Seq<Place>,
    paths: Seq<Option<Vec<u16>>>,
    more: Seq<Place>,
    more_paths: Seq<Option<Vec<u16>>>,
    n: int,
)
    requires
        n <= at.len() <= more.len(),
        n <= paths.len() <= more_paths.len(),
        forall|i: int| 0 <= i < n ==> #[trigger] at[i] == more[i],
        forall|i: int| 0 <= i < n ==> #[trigger] paths[i] == more_paths[i],
    ensures
        registered(at, paths, n) == registered(more, more_paths, n),
    decreases n,
{
    if n > 0 {
        lemma_registered_prefix(at, paths, more, more_paths, n - 1);
        assert(at[n - 1] == more[n - 1]);
        assert(paths[n - 1] == more_paths[n - 1]);
    }
}

/// Programs are looked for in two folders below each root that is known, and nowhere else.
pub proof fn law_programs_are_looked_for_below_the_roots(
    program_files: Option<Vec<u16>>,
    local: Option<Vec<u16>>,
    found: Vec<Vec<u16>>,
)
    requires
        call_ensures(common_paths, (&program_files, &local), found),
    ensures
        found@.len() == (if program_files is Some {
            2int
        } else {
            0int
        }) + (if local is Some {
            2int
        } else {
            0int
        }),
        program_files is Some ==> found@[0]@ == winpath::joined(
            program_files->0@,
            text::utf16_encoded("Everything 1.5a\\Everything64.exe"@),
        ) && found@[1]@ == winpath::joined(
            program_files->0@,
            text::utf16_encoded("Everything\\Everything64.exe"@),
        ),
        program_files is None && local is Some ==> found@[0]@ == winpath::joined(
            local->0@,
            text::utf16_encoded("Everything 1.5a\\Everything64.exe"@),
        ) && found@[1]@ == winpath::joined(
            local->0@,
            text::utf16_encoded("Everything\\Everything64.exe"@),
        ),
{
    let views = winpath::path_views(found@);
    assert(views.len() == found@.len());
    if program_files is Some || local is Some {
        assert(views[0] == found@[0]@ && views[1] == found@[1]@);
    }
}

} // verus!
