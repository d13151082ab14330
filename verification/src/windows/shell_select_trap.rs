//! Folders that are opened in order to show one of their files: the request to select the file
//! comes after the folder, and is caught for a moment.
use vstd::prelude::*;

use crate::windows::address_path;
use crate::windows::address_path::ExternalLaunchPath;
use crate::winpath::units_copy_all;

verus! {

/// How long a request is waited for.
pub const TRAP_TIMEOUT_MS: u64 = 3000;

pub const TIMER_ID: u64 = 1;

pub const WM_DESTROY: u32 = 2;

pub const WM_TIMER: u32 = 275;

/// The launch asks for one folder, and not for a file in it.
pub open spec fn opens_one_folder(paths: Seq<ExternalLaunchPath>) -> bool {
    paths.len() == 1 && !paths[0].select
}

/// The folder for which a request may follow, given whether the path is a directory.
pub fn trap_candidate(paths: &[ExternalLaunchPath], is_directory: bool) -> (folder: Option<
    Vec<u16>,
>)
    ensures
        folder is Some <==> opens_one_folder(paths@) && is_directory,
        folder matches Some(folder) ==> folder@ == paths@[0].path@,
{
    if paths.len() != 1 || paths[0].select || !is_directory {
        return None;
    }
    Some(units_copy_all(paths[0].path.as_slice()))
}

/// The launch with the file that is to be shown, where the one who launched us names it.
pub fn enrich_folder_open_selects(
    paths: Vec<ExternalLaunchPath>,
    is_directory: bool,
    target: Option<Vec<u16>>,
) -> (enriched: Vec<ExternalLaunchPath>)
    ensures
        match target {
            Some(target) if opens_one_folder(paths@) && is_directory => enriched@.len() == 1
                && enriched@[0].select && enriched@[0].path@ == address_path::launch_path(target@),
            _ => enriched == paths,
        },
{
    if trap_candidate(paths.as_slice(), is_directory).is_none() {
        return paths;
    }
    match target {
        Some(target) => {
            let mut enriched: Vec<ExternalLaunchPath> = Vec::new();
            enriched.push(ExternalLaunchPath::select(target));
            enriched
        },
        None => paths,
    }
}

/// What is done about a request that may follow.
#[derive(Debug, PartialEq, Eq)]
pub enum Followup {
    /// None can follow.
    Nothing,
    /// The desktop launched us, and sends none.
    SkipShellParent,
    /// Watch for one about this folder.
    Watch(Vec<u16>),
}

pub open spec fn is_followup(
    followup: Followup,
    paths: Seq<ExternalLaunchPath>,
    skip: bool,
) -> bool {
    if !opens_one_folder(paths) {
        followup is Nothing
    } else if skip {
        followup is SkipShellParent
    } else {
        followup matches Followup::Watch(folder) && folder@ == paths[0].path@
    }
}

fn spawn_select_followup(paths: &[ExternalLaunchPath], skip: bool) -> (followup: Followup)
    ensures
        is_followup(followup, paths@, skip),
{
    if paths.len() != 1 || paths[0].select {
        return Followup::Nothing;
    }
    if skip {
        return Followup::SkipShellParent;
    }
    Followup::Watch(units_copy_all(paths[0].path.as_slice()))
}

/// For a launch of our own: nothing follows where the desktop is our parent.
pub fn begin_select_followup(paths: &[ExternalLaunchPath], parent_is_shell: bool) -> (followup:
    Followup)
    ensures
        is_followup(followup, paths@, parent_is_shell),
{
    spawn_select_followup(paths, parent_is_shell)
}

/// For a launch that another process has forwarded.
pub fn begin_select_followup_for_ipc(paths: &[ExternalLaunchPath]) -> (followup: Followup)
    ensures
        is_followup(followup, paths@, false),
{
    spawn_select_followup(paths, false)
}

/// Whether the message ends the wait.
pub fn ends_wait(message: u32, timer: u64) -> (ends: bool)
    ensures
        ends == ((message == WM_TIMER && timer == TIMER_ID) || message == WM_DESTROY),
{
    (message == WM_TIMER && timer == TIMER_ID) || message == WM_DESTROY
}

/// The service of the browser at the top.
pub const SID_TOP_LEVEL_BROWSER: u128 = 0x4c96be40_915c_11cf_99d3_00aa004ae837;

pub const IID_SHELL_BROWSER: u128 = 0x000214e2_0000_0000_c000_000000000046;

pub const IID_OLE_WINDOW: u128 = 0x00000114_0000_0000_c000_000000000046;

/// What a caller that asks for a service is given.
#[derive(Debug, Clone, Copy, PartialEq, Eq, Structural)]
pub enum ServiceAnswer {
    /// The interface of our own that it asks for.
    Own,
    /// The browser.
    Browser,
    /// The window of the browser.
    BrowserWindow,
    /// Nothing: the failure of the search among our own interfaces.
    Refused,
}

/// Our own interfaces come first, then the browser, and for the browser at the top its window.
pub fn query_service(own: bool, has_browser: bool, service: u128, requested: u128) -> (answer:
    ServiceAnswer)
    ensures
        answer == if own {
            ServiceAnswer::Own
        } else if has_browser && requested == IID_SHELL_BROWSER {
            ServiceAnswer::Browser
        } else if has_browser && service == SID_TOP_LEVEL_BROWSER && requested == IID_OLE_WINDOW {
            ServiceAnswer::BrowserWindow
        } else {
            ServiceAnswer::Refused
        },
{
    if own {
        return ServiceAnswer::Own;
    }
    if !has_browser {
        return ServiceAnswer::Refused;
    }
    if requested == IID_SHELL_BROWSER {
        ServiceAnswer::Browser
    } else if service == SID_TOP_LEVEL_BROWSER && requested == IID_OLE_WINDOW {
        ServiceAnswer::BrowserWindow
    } else {
        ServiceAnswer::Refused
    }
}

/// The file of a request; an empty path is none.
pub fn selected_item(path: Option<Vec<u16>>) -> (selected: Option<Vec<u16>>)
    ensures
        selected == match path {
            Some(path) if path@.len() > 0 => Some(path),
            _ => None,
        },
{
    match path {
        Some(path) => if path.len() > 0 {
            Some(path)
        } else {
            None
        },
        None => None,
    }
}

/// The registrations of the window that watches.
#[derive(Debug, Clone, Copy, PartialEq, Eq, Structural)]
pub struct TrapRegistrations {
    pub pending: Option<i32>,
    pub window: Option<i32>,
    pub explorer: Option<i32>,
}

/// The number under which a registration is known; zero before there was one.
pub open spec fn cookie(registration: Option<i32>) -> i32 {
    match registration {
        Some(cookie) => cookie,
        None => 0,
    }
}

pub open spec fn revocations(registrations: TrapRegistrations) -> Seq<i32> {
    (match registrations.window {
        Some(cookie) => seq![cookie],
        None => Seq::empty(),
    }) + (match registrations.explorer {
        Some(cookie) => seq![cookie],
        None => Seq::empty(),
    }) + (match registrations.pending {
        Some(pending) if pending != cookie(registrations.window) => seq![pending],
        _ => Seq::empty(),
    })
}

impl TrapRegistrations {
    pub fn new() -> (registrations: TrapRegistrations)
        ensures
            registrations.pending is None,
            registrations.window is None,
            registrations.explorer is None,
    {
        TrapRegistrations { pending: None, window: None, explorer: None }
    }

    /// The registrations to revoke, in turn. The first one may have become that of the window, and
    /// is then not revoked twice.
    pub fn revoke(&mut self) -> (cookies: Vec<i32>)
        ensures
            cookies@ == revocations(*old(self)),
            final(self).pending is None,
            final(self).window is None,
            final(self).explorer is None,
    {
        let mut cookies: Vec<i32> = Vec::new();
        let mut own: i32 = 0;
        match self.window {
            Some(cookie) => {
                cookies.push(cookie);
                own = cookie;
            },
            None => {},
        }
        match self.explorer {
            Some(cookie) => {
                cookies.push(cookie);
            },
            None => {},
        }
        match self.pending {
            Some(cookie) => {
                if cookie != own {
                    cookies.push(cookie);
                }
            },
            None => {},
        }
        assert(cookies@ =~= revocations(*old(self)));
        self.window = None;
        self.explorer = None;
        self.pending = None;
        cookies
    }
}

/// Every registration is revoked, and none again later.
pub proof fn law_all_registrations_are_revoked(registrations: TrapRegistrations)
    ensures
        registrations.window matches Some(cookie) ==> revocations(registrations).contains(cookie),
        registrations.explorer matches Some(cookie) ==> revocations(registrations).contains(cookie),
        registrations.pending matches Some(pending) ==> pending == cookie(registrations.window)
            || revocations(registrations).contains(pending),
{
    let all = revocations(registrations);
    let first = match registrations.window {
        Some(cookie) => seq![cookie],
        None => Seq::empty(),
    };
    let second = match registrations.explorer {
        Some(cookie) => seq![cookie],
        None => Seq::empty(),
    };
    if registrations.window is Some {
        assert(all[0] == registrations.window->0);
    }
    if registrations.explorer is Some {
        assert(all[first.len() as int] == registrations.explorer->0);
    }
    if registrations.pending is Some && registrations.pending->0 != cookie(registrations.window) {
        assert(all[(first.len() + second.len()) as int] == registrations.pending->0);
    }
}

/// A launch is watched for a selection only where it opens a single folder; what is then selected is
/// shown in place of the folder, and any other launch stays as it is.
pub proof fn law_only_a_single_folder_is_watched(
    paths: Vec<ExternalLaunchPath>,
    shown: &[ExternalLaunchPath],
    is_directory: bool,
    target: Option<Vec<u16>>,
    candidate: Option<Vec<u16>>,
    enriched: Vec<ExternalLaunchPath>,
    parent_is_shell: bool,
    followup: Followup,
    from_ipc: Followup,
)
    requires
        shown@ == paths@,
        call_ensures(trap_candidate, (shown, is_directory), candidate),
        call_ensures(enrich_folder_open_selects, (paths, is_directory, target), enriched),
        call_ensures(begin_select_followup, (shown, parent_is_shell), followup),
        call_ensures(begin_select_followup_for_ipc, (shown,), from_ipc),
    ensures
        candidate is Some <==> paths@.len() == 1 && !paths@[0].select && is_directory,
        candidate matches Some(folder) ==> folder@ == paths@[0].path@,
        candidate is Some && target is Some ==> enriched@.len() == 1 && enriched@[0].select,
        candidate is None || target is None ==> enriched == paths,
        followup is Nothing <==> !(paths@.len() == 1 && !paths@[0].select),
        followup is SkipShellParent <==> paths@.len() == 1 && !paths@[0].select && parent_is_shell,
        followup matches Followup::Watch(folder) ==> folder@ == paths@[0].path@,
        from_ipc is Watch <==> paths@.len() == 1 && !paths@[0].select,
        from_ipc matches Followup::Watch(folder) ==> folder@ == paths@[0].path@,
{
}

/// Every registration is revoked, each once, and none is left.
pub proof fn law_no_registration_is_left(registrations: &mut TrapRegistrations, cookies: Vec<i32>)
    requires
        call_ensures(TrapRegistrations::revoke, (registrations,), cookies),
    ensures
        old(registrations).window matches Some(cookie) ==> cookies@.contains(cookie),
        old(registrations).explorer matches Some(cookie) ==> cookies@.contains(cookie),
        old(registrations).pending matches Some(cookie) ==> cookie == 0 || cookies@.contains(cookie),
        forall|i: int|
            0 <= i < cookies@.len() ==> old(registrations).window == Some(#[trigger] cookies@[i])
                || old(registrations).explorer == Some(cookies@[i]) || old(registrations).pending
                == Some(cookies@[i]),
        cookies@.len() <= 3,
        final(registrations).pending is None && final(registrations).window is None && final(registrations).explorer is None,
{
    let r = *old(registrations);
    let w = if r.window is Some {
        1int
    } else {
        0int
    };
    let e = if r.explorer is Some {
        1int
    } else {
        0int
    };
    if r.window is Some {
        assert(cookies@[0] == r.window->0);
    }
    if r.explorer is Some {
        assert(cookies@[w] == r.explorer->0);
    }
    if r.pending is Some && r.pending->0 != cookie(r.window) {
        assert(cookies@[w + e] == r.pending->0);
    }
}

/// A wait ends with its own timer or its window; the trap answers for itself, and for the browser where
/// there is one; and an empty path is no selection.
pub proof fn law_the_trap_answers_for_the_browser(
    message: u32,
    timer: u64,
    ends: bool,
    own: bool,
    has_browser: bool,
    service: u128,
    requested: u128,
    answer: ServiceAnswer,
    path: Option<Vec<u16>>,
    selected: Option<Vec<u16>>,
)
    requires
        call_ensures(ends_wait, (message, timer), ends),
        call_ensures(query_service, (own, has_browser, service, requested), answer),
        call_ensures(selected_item, (path,), selected),
    ensures
        ends <==> (message == 275 && timer == 1) || message == 2,
        answer is Own <==> own,
        !own && !has_browser ==> answer is Refused,
        selected is Some <==> path is Some && path->0@.len() > 0,
        selected matches Some(chosen) ==> chosen == path->0,
{
}

} // verus!
