//! What is recorded of the one who launched the file manager.
use vstd::prelude::*;

use crate::text::push_text;
use crate::windows::address_path::ExternalLaunchPath;

verus! {

/// Who launched the process, as far as it can be told.
#[derive(Debug, Clone)]
pub struct LaunchProbe {
    pub parent_pid: Option<u32>,
    pub parent_image: Option<Vec<u16>>,
    pub parent_command: Option<Vec<u16>>,
    pub self_command: Vec<u16>,
    pub parent_is_shell: bool,
}

/// The record of a launch, given the processes of the parent and of the desktop.
pub fn collect(
    parent_pid: Option<u32>,
    shell_pid: Option<u32>,
    parent_image: Option<Vec<u16>>,
    parent_command: Option<Vec<u16>>,
    self_command: Vec<u16>,
) -> (probe: LaunchProbe)
    ensures
        probe.parent_pid == parent_pid,
        probe.parent_image == parent_image,
        probe.parent_command == parent_command,
        probe.self_command == self_command,
        probe.parent_is_shell == (parent_pid is Some && parent_pid == shell_pid),
{
    let parent_is_shell = match (parent_pid, shell_pid) {
        (Some(parent), Some(shell)) => parent == shell,
        _ => false,
    };
    LaunchProbe { parent_pid, parent_image, parent_command, self_command, parent_is_shell }
}

/// What each path is launched for, with commas between.
pub open spec fn launch_kinds(paths: Seq<ExternalLaunchPath>) -> Seq<char>
    decreases paths.len(),
{
    if paths.len() == 0 {
        Seq::empty()
    } else {
        launch_kinds(paths.drop_last()) + (if paths.len() > 1 {
            ","@
        } else {
            Seq::empty()
        }) + (if paths.last().select {
            "select"@
        } else {
            "open"@
        })
    }
}

pub fn kinds_text(paths: &[ExternalLaunchPath]) -> (kinds: String)
    ensures
        kinds@ == launch_kinds(paths@),
{
    let n: usize = paths.len();
    let mut kinds = String::new();
    let mut i: usize = 0;
    assert(paths@.subrange(0, 0).len() == 0);
    while i < n
        invariant
            n == paths@.len(),
            i <= n,
            kinds@ == launch_kinds(paths@.subrange(0, i as int)),
        decreases n - i,
    {
        let ghost next = paths@.subrange(0, i + 1);
        assert(next.drop_last() =~= paths@.subrange(0, i as int));
        if i > 0 {
            push_text(&mut kinds, ",");
        }
        push_text(
            &mut kinds,
            if paths[i].select {
                "select"
            } else {
                "open"
            },
        );
        assert(kinds@ =~= launch_kinds(next));
        i += 1;
    }
    assert(paths@.subrange(0, i as int) =~= paths@);
    kinds
}

/// One more launch adds one word behind the others: whether it selects or opens.
pub proof fn law_each_launch_is_named(
    paths: &[ExternalLaunchPath],
    more: &[ExternalLaunchPath],
    path: ExternalLaunchPath,
    before: String,
    after: String,
)
    requires
        more@ == paths@.push(path),
        call_ensures(kinds_text, (paths,), before),
        call_ensures(kinds_text, (more,), after),
    ensures
        paths@.len() == 0 ==> before@.len() == 0,
        after@ == before@ + (if paths@.len() > 0 {
            seq![',']
        } else {
            Seq::empty()
        }) + (if path.select {
            "select"@
        } else {
            "open"@
        }),
{
    reveal_strlit(",");
    assert(","@ =~= seq![',']);
    assert(more@.drop_last() =~= paths@);
}

/// The probe keeps what it was given, and the parent is the Shell exactly where both are known and one.
pub proof fn law_the_parent_is_compared_with_the_shell(
    parent_pid: Option<u32>,
    shell_pid: Option<u32>,
    parent_image: Option<Vec<u16>>,
    parent_command: Option<Vec<u16>>,
    self_command: Vec<u16>,
    probe: LaunchProbe,
)
    requires
        call_ensures(
            collect,
            (parent_pid, shell_pid, parent_image, parent_command, self_command),
            probe,
        ),
    ensures
        probe.parent_is_shell <==> parent_pid is Some && shell_pid is Some && parent_pid->0
            == shell_pid->0,
        probe.parent_pid == parent_pid && probe.parent_image == parent_image,
        probe.parent_command == parent_command && probe.self_command == self_command,
{
}

} // verus!
