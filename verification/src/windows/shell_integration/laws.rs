//! What registrations promise: what they replace comes back, and nothing else is touched.
use vstd::prelude::*;

use crate::bytes;
use crate::errors::IoError;
use crate::text;
use crate::windows::shell_integration as integration_rules;
use crate::windows::shell_integration::image;
use crate::windows::shell_integration::image::{Registry, Slot, Value, REG_BINARY};
use crate::windows::shell_integration::image::{RegistryImage, RegistryValue};
use crate::windows::shell_integration::{
    EnablePlan, Recovery, Scope, ShellIntegrationStatus, Status, Takeover,
};
use crate::winpath;

verus! {

// ---- names and places ----

/// The names under which the two values of a target are kept.
pub open spec fn backup_part(prefix: Seq<char>, part: int) -> Seq<char> {
    if part == 0 {
        integration_rules::backup_name(prefix, "Default"@, "Present"@)
    } else if part == 1 {
        integration_rules::backup_name(prefix, "Default"@, "Type"@)
    } else if part == 2 {
        integration_rules::backup_name(prefix, "Default"@, "Data"@)
    } else if part == 3 {
        integration_rules::backup_name(prefix, "DelegateExecute"@, "Present"@)
    } else if part == 4 {
        integration_rules::backup_name(prefix, "DelegateExecute"@, "Type"@)
    } else {
        integration_rules::backup_name(prefix, "DelegateExecute"@, "Data"@)
    }
}

/// The name is one of those that a state key always has.
pub open spec fn is_fixed_name(name: Seq<char>) -> bool {
    name == "Active"@ || name == "BoundExecutable"@ || name == "BackupComplete"@
}

/// The targets lie outside the state key, and no two of them share a key or the name of a backup.
pub open spec fn separate(scope: Scope, state: Seq<char>, targets: Seq<Takeover>) -> bool {
    &&& forall|i: int|
        0 <= i < targets.len() ==> !image::is_under(
            integration_rules::class_key_of(scope, (#[trigger] targets[i]).key),
            state,
        )
    &&& forall|i: int, j: int|
        0 <= i < j < targets.len() ==> (#[trigger] targets[i]).key != (#[trigger] targets[j]).key
    &&& forall|i: int, a: int, j: int, b: int|
        0 <= i < targets.len() && 0 <= a < 6 && 0 <= j < targets.len() && 0 <= b < 6 && (i != j || a
            != b) ==> #[trigger] backup_part(targets[i].prefix, a) != #[trigger] backup_part(
            targets[j].prefix,
            b,
        )
    &&& forall|i: int, a: int|
        0 <= i < targets.len() && 0 <= a < 6 ==> !is_fixed_name(
            #[trigger] backup_part(targets[i].prefix, a),
        )
}

/// The place belongs to one of the first targets.
pub open spec fn is_target_slot(scope: Scope, targets: Seq<Takeover>, n: int, at: Slot) -> bool {
    exists|i: int|
        0 <= i < n && (at == integration_rules::command_slot(scope, #[trigger] targets[i]) || at
            == integration_rules::delegate_slot(scope, targets[i]))
}

/// The place holds a part of a backup of one of the first targets.
pub open spec fn is_backup_slot(
    state: Seq<char>,
    targets: Seq<Takeover>,
    n: int,
    at: Slot,
) -> bool {
    exists|i: int, a: int|
        0 <= i < n && 0 <= a < 6 && at == image::slot(
            state,
            #[trigger] backup_part(targets[i].prefix, a),
        )
}

proof fn lemma_target_slots_differ(scope: Scope, targets: Seq<Takeover>, i: int, j: int)
    requires
        0 <= i < targets.len(),
        0 <= j < targets.len(),
        targets[i].key != targets[j].key,
    ensures
        integration_rules::class_key_of(scope, targets[i].key) != integration_rules::class_key_of(
            scope,
            targets[j].key,
        ),
{
    let a = targets[i].key;
    let b = targets[j].key;
    let first = scope.classes + "\\"@;
    if first + a == first + b {
        assert((first + a).subrange(first.len() as int, (first + a).len() as int) =~= a);
        assert((first + b).subrange(first.len() as int, (first + b).len() as int) =~= b);
    }
}

proof fn lemma_two_names()
    ensures
        ""@ != "DelegateExecute"@,
{
    reveal_strlit("");
    reveal_strlit("DelegateExecute");
    assert(""@.len() == 0);
    assert("DelegateExecute"@.len() == 15);
}

proof fn lemma_fixed_names()
    ensures
        "Active"@ != "BoundExecutable"@,
        "Active"@ != "BackupComplete"@,
        "BoundExecutable"@ != "BackupComplete"@,
{
    reveal_strlit("Active");
    reveal_strlit("BoundExecutable");
    reveal_strlit("BackupComplete");
    assert("Active"@.len() == 6);
    assert("BoundExecutable"@.len() == 15);
    assert("BackupComplete"@.len() == 14);
}

// ---- values ----

proof fn lemma_dword(n: u32)
    ensures
        integration_rules::dword(n).data.len() == 4,
        bytes::le32(integration_rules::dword(n).data, 0) == n,
{
    bytes::lemma_le32(Seq::empty(), n, Seq::empty());
    assert(Seq::<u8>::empty() + bytes::bytes32(n) + Seq::<u8>::empty() =~= bytes::bytes32(n));
}

proof fn lemma_dword_read(registry: Registry, at: Slot, n: u32)
    requires
        registry.get(at) == Some(integration_rules::dword(n)),
    ensures
        integration_rules::dword_in(registry, at) == Ok::<Option<u32>, Seq<char>>(Some(n)),
{
    lemma_dword(n);
}

/// A text that does not end with a NUL is read back as it was written.
pub proof fn law_texts_are_read_back(registry: Registry, at: Slot, units: Seq<u16>)
    requires
        registry.get(at) == Some(integration_rules::text_value(units)),
        units.len() > 0 ==> units.last() != 0,
    ensures
        integration_rules::text_in(registry, at) == Ok::<Option<Seq<u16>>, Seq<char>>(Some(units)),
{
    let ended = units.push(0);
    bytes::law_units_round_trip(ended);
    assert(ended.drop_last() =~= units);
    assert(integration_rules::without_nuls(ended) == integration_rules::without_nuls(units));
    assert(integration_rules::without_nuls(units) == units);
}

// ---- backups ----

/// A value, or that there was none, is kept.
pub open spec fn keeps_value(
    registry: Registry,
    state: Seq<char>,
    prefix: Seq<char>,
    field: Seq<char>,
    value: Option<Value>,
) -> bool {
    match value {
        Some(value) => {
            &&& registry.get(integration_rules::present_slot(state, prefix, field)) == Some(
                integration_rules::dword(1),
            )
            &&& registry.get(integration_rules::type_slot(state, prefix, field)) == Some(
                integration_rules::dword(value.value_type),
            )
            &&& registry.get(integration_rules::data_slot(state, prefix, field)) == Some(
                Value { value_type: REG_BINARY, data: value.data },
            )
        },
        None => registry.get(integration_rules::present_slot(state, prefix, field)) == Some(
            integration_rules::dword(0),
        ),
    }
}

/// What a target had before: its command and its handler.
pub struct Original {
    pub command: Option<Value>,
    pub delegate: Option<Value>,
}

/// What a target has; a command of our own counts as none.
pub open spec fn original_of(registry: Registry, scope: Scope, target: Takeover) -> Original {
    let own = match integration_rules::text_in(
        registry,
        integration_rules::command_slot(scope, target),
    ) {
        Ok(command) => integration_rules::is_own_command(command),
        Err(_) => false,
    };
    if own {
        Original { command: None, delegate: None }
    } else {
        Original {
            command: registry.get(integration_rules::command_slot(scope, target)),
            delegate: registry.get(integration_rules::delegate_slot(scope, target)),
        }
    }
}

pub open spec fn originals(registry: Registry, scope: Scope, targets: Seq<Takeover>) -> Seq<
    Original,
> {
    Seq::new(targets.len(), |i: int| original_of(registry, scope, targets[i]))
}

/// Both values of a target are kept.
pub open spec fn keeps(
    registry: Registry,
    state: Seq<char>,
    target: Takeover,
    original: Original,
) -> bool {
    keeps_value(registry, state, target.prefix, "Default"@, original.command) && keeps_value(
        registry,
        state,
        target.prefix,
        "DelegateExecute"@,
        original.delegate,
    )
}

/// The backups of all targets are complete.
pub open spec fn backed_up(
    registry: Registry,
    state: Seq<char>,
    targets: Seq<Takeover>,
    before: Seq<Original>,
) -> bool {
    &&& before.len() == targets.len()
    &&& registry.get(integration_rules::complete_slot(state)) == Some(integration_rules::dword(1))
    &&& forall|i: int|
        0 <= i < targets.len() ==> keeps(registry, state, #[trigger] targets[i], before[i])
}

/// The program is registered for all targets, and the backups are complete.
pub open spec fn registered(
    registry: Registry,
    scope: Scope,
    state: Seq<char>,
    targets: Seq<Takeover>,
    before: Seq<Original>,
    executable: Seq<u16>,
) -> bool {
    &&& backed_up(registry, state, targets, before)
    &&& registry.get(integration_rules::active_slot(state)) == Some(integration_rules::dword(1))
    &&& registry.get(integration_rules::bound_slot(state)) == Some(
        integration_rules::text_value(executable),
    )
    &&& integration_rules::all_owned(registry, scope, targets, executable)
}

/// A program that can be registered: its path does not end with a NUL.
pub open spec fn valid_executable(executable: Seq<u16>) -> bool {
    executable.len() > 0 ==> executable.last() != 0
}

proof fn lemma_kept(
    registry: Registry,
    state: Seq<char>,
    prefix: Seq<char>,
    field: Seq<char>,
    value: Option<Value>,
)
    requires
        integration_rules::backup_name(prefix, field, "Present"@) != integration_rules::backup_name(
            prefix,
            field,
            "Type"@,
        ),
        integration_rules::backup_name(prefix, field, "Present"@) != integration_rules::backup_name(
            prefix,
            field,
            "Data"@,
        ),
        integration_rules::backup_name(prefix, field, "Type"@) != integration_rules::backup_name(
            prefix,
            field,
            "Data"@,
        ),
    ensures
        ({
            let after = integration_rules::kept(registry, state, prefix, field, value);
            &&& keeps_value(after, state, prefix, field, value)
            &&& forall|at: Slot|
                at != integration_rules::present_slot(state, prefix, field) && at
                    != integration_rules::type_slot(state, prefix, field) && at
                    != integration_rules::data_slot(state, prefix, field) ==> #[trigger] after.get(
                    at,
                ) == registry.get(at)
        }),
{
}

proof fn lemma_parts(targets: Seq<Takeover>, scope: Scope, state: Seq<char>, i: int)
    requires
        separate(scope, state, targets),
        0 <= i < targets.len(),
    ensures
        forall|a: int, b: int|
            0 <= a < 6 && 0 <= b < 6 && a != b ==> #[trigger] backup_part(targets[i].prefix, a)
                != #[trigger] backup_part(targets[i].prefix, b),
        backup_part(targets[i].prefix, 0) == integration_rules::backup_name(
            targets[i].prefix,
            "Default"@,
            "Present"@,
        ),
        backup_part(targets[i].prefix, 1) == integration_rules::backup_name(
            targets[i].prefix,
            "Default"@,
            "Type"@,
        ),
        backup_part(targets[i].prefix, 2) == integration_rules::backup_name(
            targets[i].prefix,
            "Default"@,
            "Data"@,
        ),
        backup_part(targets[i].prefix, 3) == integration_rules::backup_name(
            targets[i].prefix,
            "DelegateExecute"@,
            "Present"@,
        ),
        backup_part(targets[i].prefix, 4) == integration_rules::backup_name(
            targets[i].prefix,
            "DelegateExecute"@,
            "Type"@,
        ),
        backup_part(targets[i].prefix, 5) == integration_rules::backup_name(
            targets[i].prefix,
            "DelegateExecute"@,
            "Data"@,
        ),
{
}

/// Keeping both values of a target changes only the places of its backup.
proof fn lemma_backup_of_one(
    registry: Registry,
    scope: Scope,
    state: Seq<char>,
    targets: Seq<Takeover>,
    i: int,
    original: Original,
)
    requires
        separate(scope, state, targets),
        0 <= i < targets.len(),
    ensures
        ({
            let after = integration_rules::kept(
                integration_rules::kept(
                    registry,
                    state,
                    targets[i].prefix,
                    "Default"@,
                    original.command,
                ),
                state,
                targets[i].prefix,
                "DelegateExecute"@,
                original.delegate,
            );
            &&& keeps(after, state, targets[i], original)
            &&& forall|at: Slot|
                (forall|a: int|
                    0 <= a < 6 ==> at != image::slot(
                        state,
                        #[trigger] backup_part(targets[i].prefix, a),
                    )) ==> #[trigger] after.get(at) == registry.get(at)
        }),
{
    lemma_parts(targets, scope, state, i);
    let prefix = targets[i].prefix;
    let first = integration_rules::kept(registry, state, prefix, "Default"@, original.command);
    lemma_kept(registry, state, prefix, "Default"@, original.command);
    lemma_kept(first, state, prefix, "DelegateExecute"@, original.delegate);
    let after = integration_rules::kept(
        first,
        state,
        prefix,
        "DelegateExecute"@,
        original.delegate,
    );
    assert(after.get(integration_rules::present_slot(state, prefix, "Default"@)) == first.get(
        integration_rules::present_slot(state, prefix, "Default"@),
    ));
    assert(after.get(integration_rules::type_slot(state, prefix, "Default"@)) == first.get(
        integration_rules::type_slot(state, prefix, "Default"@),
    ));
    assert(after.get(integration_rules::data_slot(state, prefix, "Default"@)) == first.get(
        integration_rules::data_slot(state, prefix, "Default"@),
    ));
    assert forall|at: Slot|
        (forall|a: int|
            0 <= a < 6 ==> at != image::slot(
                state,
                #[trigger] backup_part(targets[i].prefix, a),
            )) implies #[trigger] after.get(at) == registry.get(at) by {
        assert(at != image::slot(state, backup_part(prefix, 0)));
        assert(at != image::slot(state, backup_part(prefix, 1)));
        assert(at != image::slot(state, backup_part(prefix, 2)));
        assert(at != image::slot(state, backup_part(prefix, 3)));
        assert(at != image::slot(state, backup_part(prefix, 4)));
        assert(at != image::slot(state, backup_part(prefix, 5)));
        assert(after.get(at) == first.get(at));
    }
}

proof fn lemma_keeps_frame(
    before: Registry,
    after: Registry,
    state: Seq<char>,
    target: Takeover,
    original: Original,
)
    requires
        keeps(before, state, target, original),
        forall|a: int|
            0 <= a < 6 ==> after.get(
                image::slot(state, #[trigger] backup_part(target.prefix, a)),
            ) == before.get(image::slot(state, backup_part(target.prefix, a))),
    ensures
        keeps(after, state, target, original),
{
    let prefix = target.prefix;
    assert(after.get(image::slot(state, backup_part(prefix, 0))) == before.get(
        image::slot(state, backup_part(prefix, 0)),
    ));
    assert(after.get(image::slot(state, backup_part(prefix, 1))) == before.get(
        image::slot(state, backup_part(prefix, 1)),
    ));
    assert(after.get(image::slot(state, backup_part(prefix, 2))) == before.get(
        image::slot(state, backup_part(prefix, 2)),
    ));
    assert(after.get(image::slot(state, backup_part(prefix, 3))) == before.get(
        image::slot(state, backup_part(prefix, 3)),
    ));
    assert(after.get(image::slot(state, backup_part(prefix, 4))) == before.get(
        image::slot(state, backup_part(prefix, 4)),
    ));
    assert(after.get(image::slot(state, backup_part(prefix, 5))) == before.get(
        image::slot(state, backup_part(prefix, 5)),
    ));
}

/// The backups of the first targets, where none of their commands is unreadable.
proof fn lemma_backups(
    registry: Registry,
    scope: Scope,
    state: Seq<char>,
    targets: Seq<Takeover>,
    n: int,
)
    requires
        separate(scope, state, targets),
        0 <= n <= targets.len(),
        integration_rules::fold(
            registry,
            targets,
            n,
            integration_rules::backup_steps(scope, state),
        ).error is None,
    ensures
        ({
            let after = integration_rules::fold(
                registry,
                targets,
                n,
                integration_rules::backup_steps(scope, state),
            ).registry;
            &&& forall|at: Slot|
                !is_backup_slot(state, targets, n, at) ==> #[trigger] after.get(at)
                    == registry.get(at)
            &&& forall|i: int|
                0 <= i < n ==> keeps(
                    after,
                    state,
                    #[trigger] targets[i],
                    original_of(registry, scope, targets[i]),
                ) && integration_rules::text_in(
                    registry,
                    integration_rules::command_slot(scope, targets[i]),
                ) is Ok
        }),
    decreases n,
{
    let step = integration_rules::backup_steps(scope, state);
    if n > 0 {
        let earlier = integration_rules::fold(registry, targets, n - 1, step);
        let after = integration_rules::fold(registry, targets, n, step).registry;
        assert(earlier.error is None);
        lemma_backups(registry, scope, state, targets, n - 1);
        let target = targets[n - 1];
        let command = integration_rules::command_slot(scope, target);
        let delegate = integration_rules::delegate_slot(scope, target);
        assert(!image::is_under(command.key, state));
        assert(!is_backup_slot(state, targets, n - 1, command));
        assert(!is_backup_slot(state, targets, n - 1, delegate));
        assert(earlier.registry.get(command) == registry.get(command));
        assert(earlier.registry.get(delegate) == registry.get(delegate));
        let original = original_of(registry, scope, target);
        assert(integration_rules::fold(registry, targets, n, step)
            == integration_rules::backup_step(earlier.registry, scope, state, target));
        lemma_backup_of_one(earlier.registry, scope, state, targets, n - 1, original);
        assert forall|at: Slot| !is_backup_slot(state, targets, n, at) implies #[trigger] after.get(
            at,
        ) == registry.get(at) by {
            assert forall|a: int| 0 <= a < 6 implies at != image::slot(
                state,
                #[trigger] backup_part(target.prefix, a),
            ) by {
                assert(backup_part(targets[n - 1].prefix, a) == backup_part(target.prefix, a));
            }
            assert(after.get(at) == earlier.registry.get(at));
            if is_backup_slot(state, targets, n - 1, at) {
                let (i, a) = choose|i: int, a: int|
                    0 <= i < n - 1 && 0 <= a < 6 && at == image::slot(
                        state,
                        #[trigger] backup_part(targets[i].prefix, a),
                    );
                assert(is_backup_slot(state, targets, n, at));
            }
        }
        assert forall|i: int| 0 <= i < n implies keeps(
            after,
            state,
            #[trigger] targets[i],
            original_of(registry, scope, targets[i]),
        ) && integration_rules::text_in(
            registry,
            integration_rules::command_slot(scope, targets[i]),
        ) is Ok by {
            if i < n - 1 {
                assert forall|a: int| 0 <= a < 6 implies after.get(
                    image::slot(state, #[trigger] backup_part(targets[i].prefix, a)),
                ) == earlier.registry.get(
                    image::slot(state, backup_part(targets[i].prefix, a)),
                ) by {
                    let at = image::slot(state, backup_part(targets[i].prefix, a));
                    assert forall|b: int| 0 <= b < 6 implies at != image::slot(
                        state,
                        #[trigger] backup_part(target.prefix, b),
                    ) by {
                        assert(backup_part(targets[i].prefix, a) != backup_part(
                            targets[n - 1].prefix,
                            b,
                        ));
                    }
                }
                lemma_keeps_frame(
                    earlier.registry,
                    after,
                    state,
                    targets[i],
                    original_of(registry, scope, targets[i]),
                );
            }
        }
    }
}

// ---- taking over ----

/// Taking over the first targets changes only their own places.
proof fn lemma_applied(
    registry: Registry,
    scope: Scope,
    state: Seq<char>,
    targets: Seq<Takeover>,
    executable: Seq<u16>,
    n: int,
)
    requires
        separate(scope, state, targets),
        0 <= n <= targets.len(),
    ensures
        ({
            let outcome = integration_rules::fold(
                registry,
                targets,
                n,
                integration_rules::apply_steps(scope, executable),
            );
            &&& outcome.error is None
            &&& forall|at: Slot|
                !is_target_slot(scope, targets, n, at) ==> #[trigger] outcome.registry.get(at)
                    == registry.get(at)
            &&& forall|i: int|
                0 <= i < n ==> integration_rules::is_owned(
                    outcome.registry,
                    scope,
                    #[trigger] targets[i],
                    executable,
                )
        }),
    decreases n,
{
    let step = integration_rules::apply_steps(scope, executable);
    lemma_two_names();
    if n > 0 {
        lemma_applied(registry, scope, state, targets, executable, n - 1);
        let earlier = integration_rules::fold(registry, targets, n - 1, step);
        let outcome = integration_rules::fold(registry, targets, n, step);
        let target = targets[n - 1];
        assert(outcome == integration_rules::apply_step(
            earlier.registry,
            scope,
            executable,
            target,
        ));
        let command = integration_rules::command_slot(scope, target);
        let delegate = integration_rules::delegate_slot(scope, target);
        assert(command != delegate);
        assert forall|at: Slot| !is_target_slot(scope, targets, n, at) implies #[trigger] outcome.registry.get(
            at,
        ) == registry.get(at) by {
            assert(at != command && at != delegate) by {
                assert(targets[n - 1] == target);
            }
            if is_target_slot(scope, targets, n - 1, at) {
                let i = choose|i: int|
                    0 <= i < n - 1 && (at == integration_rules::command_slot(
                        scope,
                        #[trigger] targets[i],
                    ) || at == integration_rules::delegate_slot(scope, targets[i]));
                assert(targets[i] == targets[i]);
                assert(is_target_slot(scope, targets, n, at));
            }
            assert(earlier.registry.get(at) == registry.get(at));
        }
        assert forall|i: int| 0 <= i < n implies integration_rules::is_owned(
            outcome.registry,
            scope,
            #[trigger] targets[i],
            executable,
        ) by {
            if i < n - 1 {
                assert(targets[i].key != targets[n - 1].key);
                lemma_target_slots_differ(scope, targets, i, n - 1);
            }
        }
    }
}

proof fn lemma_state_is_no_target(
    scope: Scope,
    state: Seq<char>,
    targets: Seq<Takeover>,
    n: int,
    name: Seq<char>,
)
    requires
        separate(scope, state, targets),
        0 <= n <= targets.len(),
    ensures
        !is_target_slot(scope, targets, n, image::slot(state, name)),
{
    let at = image::slot(state, name);
    if is_target_slot(scope, targets, n, at) {
        let i = choose|i: int|
            0 <= i < n && (at == integration_rules::command_slot(scope, #[trigger] targets[i]) || at
                == integration_rules::delegate_slot(scope, targets[i]));
        assert(!image::is_under(
            integration_rules::class_key_of(scope, targets[i].key),
            state,
        ));
    }
}

/// Taking over again leaves the backups as they are.
proof fn lemma_registered_again(
    registry: Registry,
    scope: Scope,
    state: Seq<char>,
    targets: Seq<Takeover>,
    before: Seq<Original>,
    executable: Seq<u16>,
)
    requires
        separate(scope, state, targets),
        backed_up(registry, state, targets, before),
    ensures
        registered(
            integration_rules::applied(registry, scope, state, targets, executable),
            scope,
            state,
            targets,
            before,
            executable,
        ),
        forall|at: Slot|
            at.key != state && !is_target_slot(scope, targets, targets.len() as int, at)
                ==> #[trigger] integration_rules::applied(
                registry,
                scope,
                state,
                targets,
                executable,
            ).get(at) == registry.get(at),
{
    lemma_fixed_names();
    let n = targets.len() as int;
    let bound = registry.insert(
        integration_rules::bound_slot(state),
        integration_rules::text_value(executable),
    );
    let step = integration_rules::apply_steps(scope, executable);
    let taken = integration_rules::fold(bound, targets, n, step).registry;
    let after = integration_rules::applied(registry, scope, state, targets, executable);
    lemma_applied(bound, scope, state, targets, executable, n);
    assert(after == taken.insert(
        integration_rules::active_slot(state),
        integration_rules::dword(1),
    ));
    lemma_state_is_no_target(scope, state, targets, n, "BoundExecutable"@);
    lemma_state_is_no_target(scope, state, targets, n, "BackupComplete"@);
    assert(taken.get(integration_rules::bound_slot(state)) == bound.get(
        integration_rules::bound_slot(state),
    ));
    assert(taken.get(integration_rules::complete_slot(state)) == bound.get(
        integration_rules::complete_slot(state),
    ));
    assert forall|i: int| 0 <= i < targets.len() implies keeps(
        after,
        state,
        #[trigger] targets[i],
        before[i],
    ) by {
        assert forall|a: int| 0 <= a < 6 implies after.get(
            image::slot(state, #[trigger] backup_part(targets[i].prefix, a)),
        ) == registry.get(image::slot(state, backup_part(targets[i].prefix, a))) by {
            let name = backup_part(targets[i].prefix, a);
            assert(!is_fixed_name(name));
            lemma_state_is_no_target(scope, state, targets, n, name);
            assert(taken.get(image::slot(state, name)) == bound.get(image::slot(state, name)));
        }
        lemma_keeps_frame(registry, after, state, targets[i], before[i]);
    }
    assert forall|i: int| 0 <= i < targets.len() implies integration_rules::is_owned(
        after,
        scope,
        #[trigger] targets[i],
        executable,
    ) by {
        assert(integration_rules::is_owned(taken, scope, targets[i], executable));
        assert(!image::is_under(
            integration_rules::class_key_of(scope, targets[i].key),
            state,
        ));
    }
    assert forall|at: Slot|
        at.key != state && !is_target_slot(scope, targets, n, at) implies #[trigger] after.get(at)
        == registry.get(at) by {
        assert(taken.get(at) == bound.get(at));
    }
}

/// A first registration keeps what it replaces.
pub proof fn law_enable_keeps_what_it_replaces(
    registry: Registry,
    scope: Scope,
    integration: Seq<char>,
    targets: Seq<Takeover>,
    executable: Seq<u16>,
)
    requires
        separate(scope, integration_rules::state_key_of(scope, integration), targets),
        integration_rules::enable_outcome(
            registry,
            scope,
            integration,
            targets,
            executable,
        ).error is None,
        integration_rules::dword_in(
            registry,
            integration_rules::complete_slot(
                integration_rules::state_key_of(scope, integration),
            ),
        ) != Ok::<Option<u32>, Seq<char>>(Some(1)),
    ensures
        registered(
            integration_rules::enable_outcome(
                registry,
                scope,
                integration,
                targets,
                executable,
            ).registry,
            scope,
            integration_rules::state_key_of(scope, integration),
            targets,
            originals(registry, scope, targets),
            executable,
        ),
        forall|i: int|
            0 <= i < targets.len() ==> integration_rules::text_in(
                registry,
                integration_rules::command_slot(scope, #[trigger] targets[i]),
            ) is Ok,
{
    lemma_fixed_names();
    let state = integration_rules::state_key_of(scope, integration);
    let n = targets.len() as int;
    let step = integration_rules::backup_steps(scope, state);
    let backed = integration_rules::fold(registry, targets, n, step);
    lemma_backups(registry, scope, state, targets, n);
    let full = backed.registry.insert(
        integration_rules::bound_slot(state),
        integration_rules::text_value(executable),
    ).insert(integration_rules::complete_slot(state), integration_rules::dword(1));
    let before = originals(registry, scope, targets);
    assert forall|i: int| 0 <= i < targets.len() implies keeps(
        full,
        state,
        #[trigger] targets[i],
        before[i],
    ) by {
        assert(keeps(backed.registry, state, targets[i], original_of(registry, scope, targets[i])));
        assert forall|a: int| 0 <= a < 6 implies full.get(
            image::slot(state, #[trigger] backup_part(targets[i].prefix, a)),
        ) == backed.registry.get(image::slot(state, backup_part(targets[i].prefix, a))) by {
            assert(!is_fixed_name(backup_part(targets[i].prefix, a)));
        }
        lemma_keeps_frame(backed.registry, full, state, targets[i], before[i]);
    }
    assert(backed_up(full, state, targets, before));
    lemma_registered_again(full, scope, state, targets, before, executable);
}

/// A further registration, for whatever program and whatever has become of the commands, leaves
/// the backups of the first one as they are.
pub proof fn law_enable_again_keeps_the_backups(
    registry: Registry,
    scope: Scope,
    integration: Seq<char>,
    targets: Seq<Takeover>,
    before: Seq<Original>,
    executable: Seq<u16>,
)
    requires
        separate(scope, integration_rules::state_key_of(scope, integration), targets),
        backed_up(
            registry,
            integration_rules::state_key_of(scope, integration),
            targets,
            before,
        ),
    ensures
        integration_rules::enable_outcome(
            registry,
            scope,
            integration,
            targets,
            executable,
        ).error is None,
        registered(
            integration_rules::enable_outcome(
                registry,
                scope,
                integration,
                targets,
                executable,
            ).registry,
            scope,
            integration_rules::state_key_of(scope, integration),
            targets,
            before,
            executable,
        ),
{
    let state = integration_rules::state_key_of(scope, integration);
    lemma_dword_read(registry, integration_rules::complete_slot(state), 1);
    lemma_registered_again(registry, scope, state, targets, before, executable);
}

// ---- restoring ----

pub open spec fn with_value(registry: Registry, at: Slot, value: Option<Value>) -> Registry {
    match value {
        Some(value) => registry.insert(at, value),
        None => registry.remove(at),
    }
}

proof fn lemma_restored(
    registry: Registry,
    state: Seq<char>,
    prefix: Seq<char>,
    field: Seq<char>,
    at: Slot,
    value: Option<Value>,
)
    requires
        keeps_value(registry, state, prefix, field, value),
    ensures
        integration_rules::restored_or_deleted(registry, state, prefix, field, at) == with_value(
            registry,
            at,
            value,
        ),
{
    match value {
        Some(value) => {
            lemma_dword_read(
                registry,
                integration_rules::present_slot(state, prefix, field),
                1,
            );
            lemma_dword_read(
                registry,
                integration_rules::type_slot(state, prefix, field),
                value.value_type,
            );
        },
        None => {
            lemma_dword_read(
                registry,
                integration_rules::present_slot(state, prefix, field),
                0,
            );
        },
    }
}

/// The target has these values.
spec fn holds(registry: Registry, scope: Scope, target: Takeover, values: Original) -> bool {
    registry.get(integration_rules::command_slot(scope, target)) == values.command && registry.get(
        integration_rules::delegate_slot(scope, target),
    ) == values.delegate
}

/// What a target has.
spec fn values_of(registry: Registry, scope: Scope, target: Takeover) -> Original {
    Original {
        command: registry.get(integration_rules::command_slot(scope, target)),
        delegate: registry.get(integration_rules::delegate_slot(scope, target)),
    }
}

/// The places of a target are not those of the targets before it.
proof fn lemma_not_among_earlier(scope: Scope, state: Seq<char>, targets: Seq<Takeover>, n: int)
    requires
        separate(scope, state, targets),
        0 <= n < targets.len(),
    ensures
        !is_target_slot(scope, targets, n, integration_rules::command_slot(scope, targets[n])),
        !is_target_slot(scope, targets, n, integration_rules::delegate_slot(scope, targets[n])),
{
    lemma_two_names();
    let command = integration_rules::command_slot(scope, targets[n]);
    let delegate = integration_rules::delegate_slot(scope, targets[n]);
    assert forall|i: int| 0 <= i < n implies command != integration_rules::command_slot(
        scope,
        #[trigger] targets[i],
    ) && command != integration_rules::delegate_slot(scope, targets[i]) && delegate
        != integration_rules::command_slot(scope, targets[i]) && delegate
        != integration_rules::delegate_slot(scope, targets[i]) by {
        assert(targets[i].key != targets[n].key);
        lemma_target_slots_differ(scope, targets, i, n);
    }
}

/// A step gives a target that is still ours back what is kept of it, and leaves another as it is.
proof fn lemma_reverted_one(
    registry: Registry,
    scope: Scope,
    state: Seq<char>,
    bound: Option<Seq<u16>>,
    target: Takeover,
    original: Original,
)
    requires
        integration_rules::class_key_of(scope, target.key) != state,
        keeps(registry, state, target, original),
        integration_rules::revert_step(registry, scope, state, bound, target).error is None,
    ensures
        ({
            let given = integration_rules::gives_back(registry, scope, bound, target);
            let after = integration_rules::revert_step(registry, scope, state, bound, target).registry;
            &&& given is Ok
            &&& holds(
                after,
                scope,
                target,
                if given == Ok::<bool, Seq<char>>(true) {
                    original
                } else {
                    values_of(registry, scope, target)
                },
            )
            &&& forall|at: Slot|
                at != integration_rules::command_slot(scope, target) && at
                    != integration_rules::delegate_slot(scope, target) ==> #[trigger] after.get(at)
                    == registry.get(at)
        }),
{
    lemma_two_names();
    let command = integration_rules::command_slot(scope, target);
    let delegate = integration_rules::delegate_slot(scope, target);
    if integration_rules::gives_back(registry, scope, bound, target) == Ok::<bool, Seq<char>>(true) {
        lemma_restored(registry, state, target.prefix, "Default"@, command, original.command);
        let first = with_value(registry, command, original.command);
        assert(keeps(first, state, target, original)) by {
            assert forall|a: int| 0 <= a < 6 implies first.get(
                image::slot(state, #[trigger] backup_part(target.prefix, a)),
            ) == registry.get(image::slot(state, backup_part(target.prefix, a))) by {
            }
            lemma_keeps_frame(registry, first, state, target, original);
        }
        lemma_restored(
            first,
            state,
            target.prefix,
            "DelegateExecute"@,
            delegate,
            original.delegate,
        );
        let second = with_value(first, delegate, original.delegate);
        assert(integration_rules::revert_step(registry, scope, state, bound, target)
            == integration_rules::done(second));
        assert(command != delegate);
    }
}

/// Giving the first targets back puts the values of those that are still ours where they were, and
/// leaves the others as they are.
proof fn lemma_reverted(
    registry: Registry,
    scope: Scope,
    state: Seq<char>,
    bound: Option<Seq<u16>>,
    targets: Seq<Takeover>,
    before: Seq<Original>,
    n: int,
)
    requires
        separate(scope, state, targets),
        backed_up(registry, state, targets, before),
        0 <= n <= targets.len(),
        integration_rules::fold(
            registry,
            targets,
            n,
            integration_rules::revert_steps(scope, state, bound),
        ).error is None,
    ensures
        ({
            let after = integration_rules::fold(
                registry,
                targets,
                n,
                integration_rules::revert_steps(scope, state, bound),
            ).registry;
            &&& forall|at: Slot|
                !is_target_slot(scope, targets, n, at) ==> #[trigger] after.get(at)
                    == registry.get(at)
            &&& forall|i: int|
                0 <= i < n ==> {
                    let given = integration_rules::gives_back(
                        registry,
                        scope,
                        bound,
                        #[trigger] targets[i],
                    );
                    &&& given is Ok
                    &&& holds(
                        after,
                        scope,
                        targets[i],
                        if given == Ok::<bool, Seq<char>>(true) {
                            before[i]
                        } else {
                            values_of(registry, scope, targets[i])
                        },
                    )
                }
        }),
    decreases n,
{
    let step = integration_rules::revert_steps(scope, state, bound);
    if n > 0 {
        lemma_reverted(registry, scope, state, bound, targets, before, n - 1);
        let earlier = integration_rules::fold(registry, targets, n - 1, step).registry;
        let after = integration_rules::fold(registry, targets, n, step).registry;
        let target = targets[n - 1];
        let command = integration_rules::command_slot(scope, target);
        let delegate = integration_rules::delegate_slot(scope, target);
        assert(integration_rules::fold(registry, targets, n, step)
            == integration_rules::revert_step(earlier, scope, state, bound, target));
        lemma_not_among_earlier(scope, state, targets, n - 1);
        assert(earlier.get(command) == registry.get(command));
        assert(earlier.get(delegate) == registry.get(delegate));
        assert(integration_rules::gives_back(earlier, scope, bound, target)
            == integration_rules::gives_back(registry, scope, bound, target));
        assert(values_of(earlier, scope, target) == values_of(registry, scope, target));
        assert(keeps(registry, state, targets[n - 1], before[n - 1]));
        assert(keeps(earlier, state, target, before[n - 1])) by {
            assert forall|a: int| 0 <= a < 6 implies earlier.get(
                image::slot(state, #[trigger] backup_part(target.prefix, a)),
            ) == registry.get(image::slot(state, backup_part(target.prefix, a))) by {
                lemma_state_is_no_target(
                    scope,
                    state,
                    targets,
                    n - 1,
                    backup_part(target.prefix, a),
                );
            }
            lemma_keeps_frame(registry, earlier, state, target, before[n - 1]);
        }
        assert(integration_rules::class_key_of(scope, target.key) != state) by {
            assert(!image::is_under(
                integration_rules::class_key_of(scope, targets[n - 1].key),
                state,
            ));
        }
        lemma_reverted_one(earlier, scope, state, bound, target, before[n - 1]);
        assert forall|at: Slot| !is_target_slot(scope, targets, n, at) implies #[trigger] after.get(
            at,
        ) == registry.get(at) by {
            assert(at != command && at != delegate) by {
                assert(targets[n - 1] == target);
            }
            if is_target_slot(scope, targets, n - 1, at) {
                let i = choose|i: int|
                    0 <= i < n - 1 && (at == integration_rules::command_slot(
                        scope,
                        #[trigger] targets[i],
                    ) || at == integration_rules::delegate_slot(scope, targets[i]));
                assert(is_target_slot(scope, targets, n, at));
            }
            assert(earlier.get(at) == registry.get(at));
        }
        assert forall|i: int| 0 <= i < n implies ({
            let given = integration_rules::gives_back(
                registry,
                scope,
                bound,
                #[trigger] targets[i],
            );
            &&& given is Ok
            &&& holds(
                after,
                scope,
                targets[i],
                if given == Ok::<bool, Seq<char>>(true) {
                    before[i]
                } else {
                    values_of(registry, scope, targets[i])
                },
            )
        }) by {
            if i < n - 1 {
                assert(targets[i].key != targets[n - 1].key);
                lemma_target_slots_differ(scope, targets, i, n - 1);
            }
        }
    }
}

/// There is nothing of our own to clear.
proof fn lemma_nothing_to_clear(registry: Registry, scope: Scope, targets: Seq<Takeover>, n: int)
    requires
        0 <= n <= targets.len(),
        forall|i: int|
            0 <= i < n ==> match integration_rules::text_in(
                registry,
                integration_rules::command_slot(scope, #[trigger] targets[i]),
            ) {
                Ok(command) => !integration_rules::is_own_command(command),
                Err(_) => false,
            },
    ensures
        integration_rules::fold(registry, targets, n, integration_rules::clear_steps(scope))
            == integration_rules::done(registry),
    decreases n,
{
    if n > 0 {
        lemma_nothing_to_clear(registry, scope, targets, n - 1);
        assert(targets[n - 1] == targets[n - 1]);
    }
}

/// The values that were replaced can be given back: their commands are readable, and not ours.
pub open spec fn returnable(before: Seq<Original>, scope: Scope, targets: Seq<Takeover>) -> bool {
    forall|i: int|
        0 <= i < before.len() ==> {
            let at = integration_rules::command_slot(scope, targets[i]);
            match integration_rules::text_in(
                with_value(Map::empty(), at, (#[trigger] before[i]).command),
                at,
            ) {
                Ok(command) => !integration_rules::is_own_command(command),
                Err(_) => false,
            }
        }
}

/// The target is still ours, under the bound program or another copy of it.
pub open spec fn still_ours(
    registry: Registry,
    scope: Scope,
    integration: Seq<char>,
    target: Takeover,
) -> bool {
    let bound = integration_rules::bound_slot(integration_rules::state_key_of(scope, integration));
    integration_rules::text_in(registry, bound) matches Ok(bound) && integration_rules::gives_back(
        registry,
        scope,
        bound,
        target,
    ) == Ok::<bool, Seq<char>>(true)
}

/// Restoring gives every target that is still ours the values back that were kept of it, and
/// leaves those that another program has taken over meanwhile as they are. The registration then
/// shows as disabled.
pub proof fn law_restore_gives_back_what_is_ours(
    registry: Registry,
    scope: Scope,
    integration: Seq<char>,
    targets: Seq<Takeover>,
    before: Seq<Original>,
    current: Seq<u16>,
    bound_exists: bool,
    i: int,
)
    requires
        separate(scope, integration_rules::state_key_of(scope, integration), targets),
        backed_up(
            registry,
            integration_rules::state_key_of(scope, integration),
            targets,
            before,
        ),
        returnable(before, scope, targets),
        integration_rules::restore_outcome(registry, scope, integration, targets).error is None,
        0 <= i < targets.len(),
    ensures
        ({
            let after = integration_rules::restore_outcome(
                registry,
                scope,
                integration,
                targets,
            ).registry;
            let command = integration_rules::command_slot(scope, targets[i]);
            let delegate = integration_rules::delegate_slot(scope, targets[i]);
            let state = integration_rules::state_key_of(scope, integration);
            &&& after.get(command) == if still_ours(registry, scope, integration, targets[i]) {
                before[i].command
            } else {
                registry.get(command)
            }
            &&& after.get(delegate) == if still_ours(registry, scope, integration, targets[i]) {
                before[i].delegate
            } else {
                registry.get(delegate)
            }
            &&& integration_rules::has_state(after, state) == Ok::<bool, Seq<char>>(false)
            &&& integration_rules::status_of(
                after,
                scope,
                integration,
                targets,
                current,
                bound_exists,
            ) == Ok::<Status, Seq<char>>(Status::Disabled)
        }),
{
    let state = integration_rules::state_key_of(scope, integration);
    let n = targets.len() as int;
    lemma_dword_read(registry, integration_rules::complete_slot(state), 1);
    let bound = integration_rules::text_in(registry, integration_rules::bound_slot(state))->Ok_0;
    lemma_reverted(registry, scope, state, bound, targets, before, n);
    lemma_nothing_left(registry, scope, state, bound, targets, before);
    let step = integration_rules::revert_steps(scope, state, bound);
    let folded = integration_rules::fold(registry, targets, n, step);
    let given = image::without_tree(folded.registry, state);
    assert forall|j: int| 0 <= j < n implies values_of(given, scope, #[trigger] targets[j])
        == values_of(folded.registry, scope, targets[j]) by {
        assert(!image::is_under(
            integration_rules::class_key_of(scope, targets[j].key),
            state,
        ));
    }
    lemma_nothing_to_clear(given, scope, targets, n);
    lemma_no_leftover(given, scope, targets, n);
    assert(values_of(given, scope, targets[i]) == values_of(folded.registry, scope, targets[i]));
    assert(image::is_under(state, state));
    assert(given.get(integration_rules::active_slot(state)) is None);
    assert(given.get(integration_rules::complete_slot(state)) is None);
}

/// Once everything is given back and the state is deleted, no target has a command of our own.
proof fn lemma_nothing_left(
    registry: Registry,
    scope: Scope,
    state: Seq<char>,
    bound: Option<Seq<u16>>,
    targets: Seq<Takeover>,
    before: Seq<Original>,
)
    requires
        separate(scope, state, targets),
        backed_up(registry, state, targets, before),
        returnable(before, scope, targets),
        integration_rules::reverted(registry, scope, state, targets, bound).error is None,
    ensures
        ({
            let given = integration_rules::reverted(registry, scope, state, targets, bound).registry;
            forall|j: int|
                0 <= j < targets.len() ==> match integration_rules::text_in(
                    given,
                    integration_rules::command_slot(scope, #[trigger] targets[j]),
                ) {
                    Ok(command) => !integration_rules::is_own_command(command),
                    Err(_) => false,
                }
        }),
{
    let n = targets.len() as int;
    lemma_reverted(registry, scope, state, bound, targets, before, n);
    let step = integration_rules::revert_steps(scope, state, bound);
    let folded = integration_rules::fold(registry, targets, n, step);
    let given = image::without_tree(folded.registry, state);
    assert forall|j: int| 0 <= j < n implies match integration_rules::text_in(
        given,
        integration_rules::command_slot(scope, #[trigger] targets[j]),
    ) {
        Ok(command) => !integration_rules::is_own_command(command),
        Err(_) => false,
    } by {
        let at = integration_rules::command_slot(scope, targets[j]);
        assert(!image::is_under(
            integration_rules::class_key_of(scope, targets[j].key),
            state,
        ));
        assert(given.get(at) == folded.registry.get(at));
        if integration_rules::gives_back(registry, scope, bound, targets[j]) == Ok::<
            bool,
            Seq<char>,
        >(true) {
            let alone = with_value(Map::empty(), at, before[j].command);
            assert(alone.get(at) == before[j].command);
            assert(given.get(at) == alone.get(at));
        } else {
            assert(given.get(at) == registry.get(at));
        }
    }
}

/// Restoring does not fail where giving back does not.
proof fn lemma_restore_succeeds(
    registry: Registry,
    scope: Scope,
    integration: Seq<char>,
    targets: Seq<Takeover>,
    before: Seq<Original>,
)
    requires
        separate(scope, integration_rules::state_key_of(scope, integration), targets),
        backed_up(
            registry,
            integration_rules::state_key_of(scope, integration),
            targets,
            before,
        ),
        returnable(before, scope, targets),
        integration_rules::has_state(
            registry,
            integration_rules::state_key_of(scope, integration),
        ) == Ok::<bool, Seq<char>>(true),
        ({
            let state = integration_rules::state_key_of(scope, integration);
            &&& integration_rules::text_in(
                registry,
                integration_rules::bound_slot(state),
            ) matches Ok(bound) && integration_rules::reverted(
                registry,
                scope,
                state,
                targets,
                bound,
            ).error is None
        }),
    ensures
        integration_rules::restore_outcome(registry, scope, integration, targets).error is None,
{
    let state = integration_rules::state_key_of(scope, integration);
    let bound = integration_rules::text_in(registry, integration_rules::bound_slot(state))->Ok_0;
    lemma_nothing_left(registry, scope, state, bound, targets, before);
    let given = integration_rules::reverted(registry, scope, state, targets, bound).registry;
    lemma_nothing_to_clear(given, scope, targets, targets.len() as int);
}

proof fn lemma_no_leftover(registry: Registry, scope: Scope, targets: Seq<Takeover>, n: int)
    requires
        0 <= n <= targets.len(),
        forall|i: int|
            0 <= i < n ==> match integration_rules::text_in(
                registry,
                integration_rules::command_slot(scope, #[trigger] targets[i]),
            ) {
                Ok(command) => !integration_rules::is_own_command(command),
                Err(_) => false,
            },
    ensures
        integration_rules::leftover(registry, scope, targets, n) == Ok::<bool, Seq<char>>(false),
    decreases n,
{
    if n > 0 {
        lemma_no_leftover(registry, scope, targets, n - 1);
        assert(targets[n - 1] == targets[n - 1]);
    }
}

/// Giving back what is all ours does not fail.
proof fn lemma_revert_succeeds(
    registry: Registry,
    scope: Scope,
    state: Seq<char>,
    targets: Seq<Takeover>,
    executable: Seq<u16>,
    n: int,
)
    requires
        separate(scope, state, targets),
        integration_rules::all_owned(registry, scope, targets, executable),
        0 <= n <= targets.len(),
    ensures
        integration_rules::fold(
            registry,
            targets,
            n,
            integration_rules::revert_steps(scope, state, Some(executable)),
        ).error is None,
    decreases n,
{
    if n > 0 {
        let step = integration_rules::revert_steps(scope, state, Some(executable));
        lemma_revert_succeeds(registry, scope, state, targets, executable, n - 1);
        lemma_not_among_earlier(scope, state, targets, n - 1);
        lemma_revert_frame(
            registry,
            scope,
            state,
            Some(executable),
            targets,
            n - 1,
            integration_rules::command_slot(scope, targets[n - 1]),
        );
        lemma_revert_frame(
            registry,
            scope,
            state,
            Some(executable),
            targets,
            n - 1,
            integration_rules::delegate_slot(scope, targets[n - 1]),
        );
        let earlier = integration_rules::fold(registry, targets, n - 1, step).registry;
        assert(integration_rules::is_owned(registry, scope, targets[n - 1], executable));
        assert(integration_rules::is_owned(earlier, scope, targets[n - 1], executable));
    }
}

/// Restoring a registration gives every target the values back that it had before, and deletes the
/// state.
pub proof fn law_restore_gives_back(
    registry: Registry,
    scope: Scope,
    integration: Seq<char>,
    targets: Seq<Takeover>,
    before: Seq<Original>,
    executable: Seq<u16>,
    i: int,
)
    requires
        separate(scope, integration_rules::state_key_of(scope, integration), targets),
        registered(
            registry,
            scope,
            integration_rules::state_key_of(scope, integration),
            targets,
            before,
            executable,
        ),
        valid_executable(executable),
        returnable(before, scope, targets),
        0 <= i < targets.len(),
    ensures
        ({
            let outcome = integration_rules::restore_outcome(
                registry,
                scope,
                integration,
                targets,
            );
            let state = integration_rules::state_key_of(scope, integration);
            &&& outcome.error is None
            &&& outcome.registry.get(integration_rules::command_slot(scope, targets[i]))
                == before[i].command
            &&& outcome.registry.get(integration_rules::delegate_slot(scope, targets[i]))
                == before[i].delegate
            &&& integration_rules::has_state(outcome.registry, state) == Ok::<bool, Seq<char>>(
                false,
            )
        }),
{
    let state = integration_rules::state_key_of(scope, integration);
    let n = targets.len() as int;
    lemma_dword_read(registry, integration_rules::active_slot(state), 1);
    law_texts_are_read_back(registry, integration_rules::bound_slot(state), executable);
    lemma_revert_succeeds(registry, scope, state, targets, executable, n);
    lemma_restore_succeeds(registry, scope, integration, targets, before);
    law_restore_gives_back_what_is_ours(
        registry,
        scope,
        integration,
        targets,
        before,
        Seq::empty(),
        true,
        i,
    );
    assert(integration_rules::is_owned(registry, scope, targets[i], executable));
}

proof fn lemma_originals_are_returnable(registry: Registry, scope: Scope, targets: Seq<Takeover>)
    requires
        forall|i: int|
            0 <= i < targets.len() ==> integration_rules::text_in(
                registry,
                integration_rules::command_slot(scope, #[trigger] targets[i]),
            ) is Ok,
    ensures
        returnable(originals(registry, scope, targets), scope, targets),
{
    let before = originals(registry, scope, targets);
    assert forall|i: int| 0 <= i < before.len() implies ({
        let at = integration_rules::command_slot(scope, targets[i]);
        match integration_rules::text_in(
            with_value(Map::empty(), at, (#[trigger] before[i]).command),
            at,
        ) {
            Ok(command) => !integration_rules::is_own_command(command),
            Err(_) => false,
        }
    }) by {
        let at = integration_rules::command_slot(scope, targets[i]);
        assert(before[i] == original_of(registry, scope, targets[i]));
        let alone = with_value(Map::empty(), at, before[i].command);
        assert(alone.get(at) == before[i].command);
        assert(integration_rules::text_in(registry, at) is Ok);
    }
}

/// Registering, registering again for another program, and restoring gives every target back what
/// it had before the first registration; a command of our own from then is gone.
pub proof fn law_restore_undoes_every_enable(
    registry: Registry,
    scope: Scope,
    integration: Seq<char>,
    targets: Seq<Takeover>,
    executable: Seq<u16>,
    moved: Seq<u16>,
    i: int,
)
    requires
        separate(scope, integration_rules::state_key_of(scope, integration), targets),
        valid_executable(executable),
        valid_executable(moved),
        0 <= i < targets.len(),
        integration_rules::dword_in(
            registry,
            integration_rules::complete_slot(
                integration_rules::state_key_of(scope, integration),
            ),
        ) != Ok::<Option<u32>, Seq<char>>(Some(1)),
        integration_rules::enable_outcome(
            registry,
            scope,
            integration,
            targets,
            executable,
        ).error is None,
    ensures
        ({
            let once = integration_rules::enable_outcome(
                registry,
                scope,
                integration,
                targets,
                executable,
            );
            let twice = integration_rules::enable_outcome(
                once.registry,
                scope,
                integration,
                targets,
                moved,
            );
            let first = integration_rules::restore_outcome(
                once.registry,
                scope,
                integration,
                targets,
            );
            let second = integration_rules::restore_outcome(
                twice.registry,
                scope,
                integration,
                targets,
            );
            let original = original_of(registry, scope, targets[i]);
            &&& twice.error is None
            &&& first.error is None
            &&& second.error is None
            &&& first.registry.get(integration_rules::command_slot(scope, targets[i]))
                == original.command
            &&& first.registry.get(integration_rules::delegate_slot(scope, targets[i]))
                == original.delegate
            &&& second.registry.get(integration_rules::command_slot(scope, targets[i]))
                == original.command
            &&& second.registry.get(integration_rules::delegate_slot(scope, targets[i]))
                == original.delegate
        }),
{
    let before = originals(registry, scope, targets);
    law_enable_keeps_what_it_replaces(registry, scope, integration, targets, executable);
    lemma_originals_are_returnable(registry, scope, targets);
    let once = integration_rules::enable_outcome(
        registry,
        scope,
        integration,
        targets,
        executable,
    ).registry;
    law_restore_gives_back(once, scope, integration, targets, before, executable, i);
    law_enable_again_keeps_the_backups(once, scope, integration, targets, before, moved);
    let twice = integration_rules::enable_outcome(once, scope, integration, targets, moved).registry;
    law_restore_gives_back(twice, scope, integration, targets, before, moved, i);
}

/// What can happen to the registry between a registration and its end: a further registration, or
/// a change that another program makes.
pub enum Event {
    Enabled { executable: Seq<u16> },
    Changed { at: Slot, value: Option<Value> },
}

pub open spec fn after_event(
    registry: Registry,
    scope: Scope,
    integration: Seq<char>,
    targets: Seq<Takeover>,
    event: Event,
) -> Registry {
    match event {
        Event::Enabled { executable } => integration_rules::enable_outcome(
            registry,
            scope,
            integration,
            targets,
            executable,
        ).registry,
        Event::Changed { at, value } => with_value(registry, at, value),
    }
}

/// The registry after a series of events.
pub open spec fn after_events(
    registry: Registry,
    scope: Scope,
    integration: Seq<char>,
    targets: Seq<Takeover>,
    events: Seq<Event>,
) -> Registry
    decreases events.len(),
{
    if events.len() == 0 {
        registry
    } else {
        after_event(
            after_events(registry, scope, integration, targets, events.drop_last()),
            scope,
            integration,
            targets,
            events.last(),
        )
    }
}

/// No other program changes what the registration has kept.
pub open spec fn state_untouched(events: Seq<Event>, state: Seq<char>) -> bool {
    forall|i: int|
        0 <= i < events.len() ==> match #[trigger] events[i] {
            Event::Changed { at, .. } => !image::is_under(at.key, state),
            Event::Enabled { .. } => true,
        }
}

/// What a registration has kept outlasts further registrations and the changes of others.
proof fn lemma_backups_outlast(
    registry: Registry,
    scope: Scope,
    integration: Seq<char>,
    targets: Seq<Takeover>,
    before: Seq<Original>,
    events: Seq<Event>,
)
    requires
        separate(scope, integration_rules::state_key_of(scope, integration), targets),
        backed_up(
            registry,
            integration_rules::state_key_of(scope, integration),
            targets,
            before,
        ),
        state_untouched(events, integration_rules::state_key_of(scope, integration)),
    ensures
        backed_up(
            after_events(registry, scope, integration, targets, events),
            integration_rules::state_key_of(scope, integration),
            targets,
            before,
        ),
    decreases events.len(),
{
    let state = integration_rules::state_key_of(scope, integration);
    if events.len() > 0 {
        let earlier = events.drop_last();
        assert forall|i: int| 0 <= i < earlier.len() implies match #[trigger] earlier[i] {
            Event::Changed { at, .. } => !image::is_under(at.key, state),
            Event::Enabled { .. } => true,
        } by {
            assert(earlier[i] == events[i]);
        }
        lemma_backups_outlast(registry, scope, integration, targets, before, earlier);
        let so_far = after_events(registry, scope, integration, targets, earlier);
        let now = after_events(registry, scope, integration, targets, events);
        let last = events[events.len() - 1];
        match last {
            Event::Enabled { executable } => {
                law_enable_again_keeps_the_backups(
                    so_far,
                    scope,
                    integration,
                    targets,
                    before,
                    executable,
                );
            },
            Event::Changed { at, value } => {
                assert(image::is_under(state, state));
                assert(at.key != state);
                assert forall|i: int| 0 <= i < targets.len() implies keeps(
                    now,
                    state,
                    #[trigger] targets[i],
                    before[i],
                ) by {
                    assert(keeps(so_far, state, targets[i], before[i]));
                    assert forall|a: int| 0 <= a < 6 implies now.get(
                        image::slot(state, #[trigger] backup_part(targets[i].prefix, a)),
                    ) == so_far.get(
                        image::slot(state, backup_part(targets[i].prefix, a)),
                    ) by {
                    }
                    lemma_keeps_frame(so_far, now, state, targets[i], before[i]);
                }
            },
        }
    }
}

/// However often the program is registered again and whatever others change meanwhile, restoring
/// gives every target that is still ours back what it had before the first registration, with its
/// type and its bytes, and leaves the others as they are; a command of our own from before is gone.
/// The registration then shows as disabled.
pub proof fn law_restore_ends_every_history(
    registry: Registry,
    scope: Scope,
    integration: Seq<char>,
    targets: Seq<Takeover>,
    executable: Seq<u16>,
    events: Seq<Event>,
    current: Seq<u16>,
    bound_exists: bool,
    i: int,
)
    requires
        separate(scope, integration_rules::state_key_of(scope, integration), targets),
        integration_rules::dword_in(
            registry,
            integration_rules::complete_slot(
                integration_rules::state_key_of(scope, integration),
            ),
        ) != Ok::<Option<u32>, Seq<char>>(Some(1)),
        integration_rules::enable_outcome(
            registry,
            scope,
            integration,
            targets,
            executable,
        ).error is None,
        state_untouched(events, integration_rules::state_key_of(scope, integration)),
        0 <= i < targets.len(),
        ({
            let enabled = integration_rules::enable_outcome(
                registry,
                scope,
                integration,
                targets,
                executable,
            ).registry;
            let now = after_events(enabled, scope, integration, targets, events);
            integration_rules::restore_outcome(now, scope, integration, targets).error is None
        }),
    ensures
        ({
            let enabled = integration_rules::enable_outcome(
                registry,
                scope,
                integration,
                targets,
                executable,
            ).registry;
            let now = after_events(enabled, scope, integration, targets, events);
            let after = integration_rules::restore_outcome(now, scope, integration, targets).registry;
            let command = integration_rules::command_slot(scope, targets[i]);
            let delegate = integration_rules::delegate_slot(scope, targets[i]);
            let original = original_of(registry, scope, targets[i]);
            &&& after.get(command) == if still_ours(now, scope, integration, targets[i]) {
                original.command
            } else {
                now.get(command)
            }
            &&& after.get(delegate) == if still_ours(now, scope, integration, targets[i]) {
                original.delegate
            } else {
                now.get(delegate)
            }
            &&& integration_rules::status_of(
                after,
                scope,
                integration,
                targets,
                current,
                bound_exists,
            ) == Ok::<Status, Seq<char>>(Status::Disabled)
        }),
{
    let before = originals(registry, scope, targets);
    law_enable_keeps_what_it_replaces(registry, scope, integration, targets, executable);
    lemma_originals_are_returnable(registry, scope, targets);
    let enabled = integration_rules::enable_outcome(
        registry,
        scope,
        integration,
        targets,
        executable,
    ).registry;
    lemma_backups_outlast(enabled, scope, integration, targets, before, events);
    let now = after_events(enabled, scope, integration, targets, events);
    law_restore_gives_back_what_is_ours(
        now,
        scope,
        integration,
        targets,
        before,
        current,
        bound_exists,
        i,
    );
}

// ---- what is left alone ----

/// The step changes only the places of its target.
proof fn lemma_revert_frame(
    registry: Registry,
    scope: Scope,
    state: Seq<char>,
    bound: Option<Seq<u16>>,
    targets: Seq<Takeover>,
    n: int,
    at: Slot,
)
    requires
        0 <= n <= targets.len(),
        !is_target_slot(scope, targets, n, at),
    ensures
        integration_rules::fold(
            registry,
            targets,
            n,
            integration_rules::revert_steps(scope, state, bound),
        ).registry.get(at) == registry.get(at),
    decreases n,
{
    if n > 0 {
        let step = integration_rules::revert_steps(scope, state, bound);
        assert(!is_target_slot(scope, targets, n - 1, at)) by {
            if is_target_slot(scope, targets, n - 1, at) {
                let i = choose|i: int|
                    0 <= i < n - 1 && (at == integration_rules::command_slot(
                        scope,
                        #[trigger] targets[i],
                    ) || at == integration_rules::delegate_slot(scope, targets[i]));
                assert(is_target_slot(scope, targets, n, at));
            }
        }
        lemma_revert_frame(registry, scope, state, bound, targets, n - 1, at);
        assert(at != integration_rules::command_slot(scope, targets[n - 1]) && at
            != integration_rules::delegate_slot(scope, targets[n - 1]));
    }
}

proof fn lemma_clear_frame(
    registry: Registry,
    scope: Scope,
    targets: Seq<Takeover>,
    n: int,
    at: Slot,
)
    requires
        0 <= n <= targets.len(),
        !is_target_slot(scope, targets, n, at),
    ensures
        integration_rules::fold(
            registry,
            targets,
            n,
            integration_rules::clear_steps(scope),
        ).registry.get(at) == registry.get(at),
    decreases n,
{
    if n > 0 {
        assert(!is_target_slot(scope, targets, n - 1, at)) by {
            if is_target_slot(scope, targets, n - 1, at) {
                let i = choose|i: int|
                    0 <= i < n - 1 && (at == integration_rules::command_slot(
                        scope,
                        #[trigger] targets[i],
                    ) || at == integration_rules::delegate_slot(scope, targets[i]));
                assert(is_target_slot(scope, targets, n, at));
            }
        }
        lemma_clear_frame(registry, scope, targets, n - 1, at);
        assert(at != integration_rules::command_slot(scope, targets[n - 1]) && at
            != integration_rules::delegate_slot(scope, targets[n - 1]));
    }
}

/// Restoring changes nothing but its own state and the places of its targets, so that one
/// registration does not affect another.
pub proof fn law_restore_touches_only_its_own(
    registry: Registry,
    scope: Scope,
    integration: Seq<char>,
    targets: Seq<Takeover>,
    at: Slot,
)
    requires
        !image::is_under(at.key, integration_rules::state_key_of(scope, integration)),
        !is_target_slot(scope, targets, targets.len() as int, at),
    ensures
        integration_rules::restore_outcome(
            registry,
            scope,
            integration,
            targets,
        ).registry.get(at) == registry.get(at),
{
    let state = integration_rules::state_key_of(scope, integration);
    let n = targets.len() as int;
    match (
        integration_rules::has_state(registry, state),
        integration_rules::text_in(registry, integration_rules::bound_slot(state)),
    ) {
        (Ok(yes), Ok(bound)) => {
            lemma_revert_frame(registry, scope, state, bound, targets, n, at);
            let given = if yes {
                integration_rules::reverted(registry, scope, state, targets, bound)
            } else {
                integration_rules::done(registry)
            };
            assert(given.registry.get(at) == registry.get(at));
            lemma_clear_frame(given.registry, scope, targets, n, at);
        },
        _ => {},
    }
}

proof fn lemma_backup_frame(
    registry: Registry,
    scope: Scope,
    state: Seq<char>,
    targets: Seq<Takeover>,
    n: int,
    at: Slot,
)
    requires
        0 <= n <= targets.len(),
        at.key != state,
    ensures
        integration_rules::fold(
            registry,
            targets,
            n,
            integration_rules::backup_steps(scope, state),
        ).registry.get(at) == registry.get(at),
    decreases n,
{
    if n > 0 {
        lemma_backup_frame(registry, scope, state, targets, n - 1, at);
    }
}

proof fn lemma_apply_frame(
    registry: Registry,
    scope: Scope,
    targets: Seq<Takeover>,
    executable: Seq<u16>,
    n: int,
    at: Slot,
)
    requires
        0 <= n <= targets.len(),
        !is_target_slot(scope, targets, n, at),
    ensures
        integration_rules::fold(
            registry,
            targets,
            n,
            integration_rules::apply_steps(scope, executable),
        ).registry.get(at) == registry.get(at),
    decreases n,
{
    if n > 0 {
        assert(!is_target_slot(scope, targets, n - 1, at)) by {
            if is_target_slot(scope, targets, n - 1, at) {
                let i = choose|i: int|
                    0 <= i < n - 1 && (at == integration_rules::command_slot(
                        scope,
                        #[trigger] targets[i],
                    ) || at == integration_rules::delegate_slot(scope, targets[i]));
                assert(is_target_slot(scope, targets, n, at));
            }
        }
        lemma_apply_frame(registry, scope, targets, executable, n - 1, at);
        assert(at != integration_rules::command_slot(scope, targets[n - 1]) && at
            != integration_rules::delegate_slot(scope, targets[n - 1]));
    }
}

/// Registering changes nothing but its own state and the places of its targets.
pub proof fn law_enable_touches_only_its_own(
    registry: Registry,
    scope: Scope,
    integration: Seq<char>,
    targets: Seq<Takeover>,
    executable: Seq<u16>,
    at: Slot,
)
    requires
        !image::is_under(at.key, integration_rules::state_key_of(scope, integration)),
        !is_target_slot(scope, targets, targets.len() as int, at),
    ensures
        integration_rules::enable_outcome(
            registry,
            scope,
            integration,
            targets,
            executable,
        ).registry.get(at) == registry.get(at),
{
    let state = integration_rules::state_key_of(scope, integration);
    let n = targets.len() as int;
    assert(image::is_under(state, state));
    assert(at.key != state);
    lemma_backup_frame(registry, scope, state, targets, n, at);
    let backed = integration_rules::backup_outcome(registry, scope, state, targets, executable);
    assert(backed.registry.get(at) == registry.get(at));
    let complete = integration_rules::dword_in(registry, integration_rules::complete_slot(state));
    let start = if complete == Ok::<Option<u32>, Seq<char>>(Some(1)) {
        registry
    } else {
        backed.registry
    };
    lemma_apply_frame(
        start.insert(
            integration_rules::bound_slot(state),
            integration_rules::text_value(executable),
        ),
        scope,
        targets,
        executable,
        n,
        at,
    );
}

/// A target that another program has taken over meanwhile keeps that program's values.
pub proof fn law_foreign_commands_stay(
    registry: Registry,
    scope: Scope,
    integration: Seq<char>,
    targets: Seq<Takeover>,
    i: int,
)
    requires
        separate(scope, integration_rules::state_key_of(scope, integration), targets),
        0 <= i < targets.len(),
        ({
            let state = integration_rules::state_key_of(scope, integration);
            let at = integration_rules::command_slot(scope, targets[i]);
            &&& integration_rules::text_in(
                registry,
                integration_rules::bound_slot(state),
            ) matches Ok(bound) ==> integration_rules::gives_back(
                registry,
                scope,
                bound,
                targets[i],
            ) == Ok::<bool, Seq<char>>(false)
            &&& integration_rules::text_in(registry, at) matches Ok(command)
                && !integration_rules::is_own_command(command)
        }),
    ensures
        ({
            let after = integration_rules::restore_outcome(
                registry,
                scope,
                integration,
                targets,
            ).registry;
            &&& after.get(integration_rules::command_slot(scope, targets[i])) == registry.get(
                integration_rules::command_slot(scope, targets[i]),
            )
            &&& after.get(integration_rules::delegate_slot(scope, targets[i])) == registry.get(
                integration_rules::delegate_slot(scope, targets[i]),
            )
        }),
{
    let state = integration_rules::state_key_of(scope, integration);
    let n = targets.len() as int;
    match (
        integration_rules::has_state(registry, state),
        integration_rules::text_in(registry, integration_rules::bound_slot(state)),
    ) {
        (Ok(yes), Ok(bound)) => {
            lemma_revert_skips(registry, scope, state, bound, targets, n, i);
            let given = if yes {
                integration_rules::reverted(registry, scope, state, targets, bound)
            } else {
                integration_rules::done(registry)
            };
            assert(!image::is_under(
                integration_rules::class_key_of(scope, targets[i].key),
                state,
            ));
            lemma_clear_skips(given.registry, scope, targets, n, i);
        },
        _ => {},
    }
}

proof fn lemma_revert_skips(
    registry: Registry,
    scope: Scope,
    state: Seq<char>,
    bound: Option<Seq<u16>>,
    targets: Seq<Takeover>,
    n: int,
    i: int,
)
    requires
        separate(scope, state, targets),
        0 <= n <= targets.len(),
        0 <= i < targets.len(),
        integration_rules::gives_back(registry, scope, bound, targets[i]) == Ok::<bool, Seq<char>>(
            false,
        ),
    ensures
        ({
            let after = integration_rules::fold(
                registry,
                targets,
                n,
                integration_rules::revert_steps(scope, state, bound),
            ).registry;
            &&& after.get(integration_rules::command_slot(scope, targets[i])) == registry.get(
                integration_rules::command_slot(scope, targets[i]),
            )
            &&& after.get(integration_rules::delegate_slot(scope, targets[i])) == registry.get(
                integration_rules::delegate_slot(scope, targets[i]),
            )
        }),
    decreases n,
{
    if n > 0 {
        lemma_revert_skips(registry, scope, state, bound, targets, n - 1, i);
        if i != n - 1 {
            assert(targets[i].key != targets[n - 1].key);
            lemma_target_slots_differ(scope, targets, i, n - 1);
        }
    }
}

proof fn lemma_clear_skips(
    registry: Registry,
    scope: Scope,
    targets: Seq<Takeover>,
    n: int,
    i: int,
)
    requires
        0 <= n <= targets.len(),
        0 <= i < targets.len(),
        forall|a: int, b: int|
            0 <= a < b < targets.len() ==> (#[trigger] targets[a]).key != (#[trigger] targets[b]).key,
        integration_rules::text_in(
            registry,
            integration_rules::command_slot(scope, targets[i]),
        ) matches Ok(command) && !integration_rules::is_own_command(command),
    ensures
        ({
            let after = integration_rules::fold(
                registry,
                targets,
                n,
                integration_rules::clear_steps(scope),
            ).registry;
            &&& after.get(integration_rules::command_slot(scope, targets[i])) == registry.get(
                integration_rules::command_slot(scope, targets[i]),
            )
            &&& after.get(integration_rules::delegate_slot(scope, targets[i])) == registry.get(
                integration_rules::delegate_slot(scope, targets[i]),
            )
        }),
    decreases n,
{
    if n > 0 {
        lemma_clear_skips(registry, scope, targets, n - 1, i);
        if i != n - 1 {
            assert(targets[i].key != targets[n - 1].key);
            lemma_target_slots_differ(scope, targets, i, n - 1);
        }
    }
}

// ---- the registrations of the file manager ----

proof fn lemma_field_of_part(prefix: Seq<char>, part: int)
    requires
        0 <= part < 6,
    ensures
        ({
            let name = backup_part(prefix, part);
            let at = prefix.len() as int;
            &&& name.len() > at + 7
            &&& name.subrange(0, at) == prefix
            &&& part < 3 ==> name[at + 2] == 'f' && name.len() == at + 7 + if part == 0 {
                7int
            } else {
                4int
            }
            &&& part >= 3 ==> name[at + 2] == 'l' && name.len() == at + 15 + if part == 3 {
                7int
            } else {
                4int
            }
            &&& part == 1 ==> name[at + 7] == 'T'
            &&& part == 2 ==> name[at + 7] == 'D'
            &&& part == 4 ==> name[at + 15] == 'T'
            &&& part == 5 ==> name[at + 15] == 'D'
        }),
{
    reveal_strlit("Default");
    reveal_strlit("DelegateExecute");
    reveal_strlit("Present");
    reveal_strlit("Type");
    reveal_strlit("Data");
    assert(backup_part(prefix, part).subrange(0, prefix.len() as int) =~= prefix);
}

proof fn lemma_parts_differ(a_prefix: Seq<char>, a: int, b_prefix: Seq<char>, b: int)
    requires
        0 <= a < 6,
        0 <= b < 6,
        a_prefix.len() > 0,
        b_prefix.len() > 0,
        a_prefix[0] != b_prefix[0] || (a_prefix == b_prefix && a != b),
    ensures
        backup_part(a_prefix, a) != backup_part(b_prefix, b),
{
    lemma_field_of_part(a_prefix, a);
    lemma_field_of_part(b_prefix, b);
    let x = backup_part(a_prefix, a);
    let y = backup_part(b_prefix, b);
    assert(x.subrange(0, a_prefix.len() as int)[0] == x[0]);
    assert(y.subrange(0, b_prefix.len() as int)[0] == y[0]);
}

proof fn lemma_part_is_not_fixed(prefix: Seq<char>, part: int)
    requires
        0 <= part < 6,
        prefix.len() > 0,
        prefix[0] != 'A',
        prefix[0] != 'B',
    ensures
        !is_fixed_name(backup_part(prefix, part)),
{
    lemma_field_of_part(prefix, part);
    reveal_strlit("Active");
    reveal_strlit("BoundExecutable");
    reveal_strlit("BackupComplete");
    let name = backup_part(prefix, part);
    assert(name.subrange(0, prefix.len() as int)[0] == name[0]);
}

proof fn lemma_class_keys_are_no_state(relative: Seq<char>, integration: Seq<char>)
    ensures
        ({
            let scope = integration_rules::production_scope();
            !image::is_under(
                integration_rules::class_key_of(scope, relative),
                integration_rules::state_key_of(scope, integration),
            )
        }),
{
    reveal_strlit("Software\\Classes");
    reveal_strlit("Software\\AsterFiles\\ShellIntegration");
    let scope = integration_rules::production_scope();
    let key = integration_rules::class_key_of(scope, relative);
    let path = integration_rules::state_key_of(scope, integration);
    assert(key[9] == 'C');
    assert(path[9] == 'A');
    if image::is_under(key, path) && key != path {
        assert(key.subrange(0, path.len() as int)[9] == key[9]);
    }
}

/// The registrations of the file manager keep apart what they touch.
pub proof fn law_own_registrations_are_separate()
    ensures
        ({
            let scope = integration_rules::production_scope();
            &&& separate(
                scope,
                integration_rules::state_key_of(scope, integration_rules::FOLDER_STATE@),
                integration_rules::folder_takeovers(),
            )
            &&& separate(
                scope,
                integration_rules::state_key_of(scope, integration_rules::WIN_E_STATE@),
                integration_rules::win_e_takeovers(),
            )
        }),
{
    reveal_strlit("Open");
    reveal_strlit("Explore");
    reveal_strlit("OpenNewWindow");
    reveal_strlit("Folder\\shell\\open\\command");
    reveal_strlit("Folder\\shell\\explore\\command");
    let scope = integration_rules::production_scope();
    let folder = integration_rules::folder_takeovers();
    let win_e = integration_rules::win_e_takeovers();
    let folder_state = integration_rules::state_key_of(scope, integration_rules::FOLDER_STATE@);
    let win_e_state = integration_rules::state_key_of(scope, integration_rules::WIN_E_STATE@);
    assert(separate(scope, folder_state, folder)) by {
        assert forall|i: int| 0 <= i < folder.len() implies !image::is_under(
            integration_rules::class_key_of(scope, (#[trigger] folder[i]).key),
            folder_state,
        ) by {
            lemma_class_keys_are_no_state(folder[i].key, integration_rules::FOLDER_STATE@);
        }
        assert(folder[0].key.len() != folder[1].key.len());
        assert(folder[0].prefix[0] == 'O');
        assert(folder[1].prefix[0] == 'E');
        assert forall|i: int, a: int, j: int, b: int|
            0 <= i < folder.len() && 0 <= a < 6 && 0 <= j < folder.len() && 0 <= b < 6 && (i != j
                || a != b) implies #[trigger] backup_part(folder[i].prefix, a)
            != #[trigger] backup_part(folder[j].prefix, b) by {
            lemma_parts_differ(folder[i].prefix, a, folder[j].prefix, b);
        }
        assert forall|i: int, a: int| 0 <= i < folder.len() && 0 <= a < 6 implies !is_fixed_name(
            #[trigger] backup_part(folder[i].prefix, a),
        ) by {
            lemma_part_is_not_fixed(folder[i].prefix, a);
        }
    }
    assert(separate(scope, win_e_state, win_e)) by {
        assert(win_e[0].prefix[0] == 'O');
        assert forall|i: int| 0 <= i < win_e.len() implies !image::is_under(
            integration_rules::class_key_of(scope, (#[trigger] win_e[i]).key),
            win_e_state,
        ) by {
            lemma_class_keys_are_no_state(win_e[i].key, integration_rules::WIN_E_STATE@);
        }
        assert forall|i: int, a: int, j: int, b: int|
            0 <= i < win_e.len() && 0 <= a < 6 && 0 <= j < win_e.len() && 0 <= b < 6 && (i != j || a
                != b) implies #[trigger] backup_part(win_e[i].prefix, a) != #[trigger] backup_part(
            win_e[j].prefix,
            b,
        ) by {
            lemma_parts_differ(win_e[i].prefix, a, win_e[j].prefix, b);
        }
        assert forall|i: int, a: int| 0 <= i < win_e.len() && 0 <= a < 6 implies !is_fixed_name(
            #[trigger] backup_part(win_e[i].prefix, a),
        ) by {
            lemma_part_is_not_fixed(win_e[i].prefix, a);
        }
    }
}

/// The place belongs to the registration: it lies in its state, or is one of its targets.
pub open spec fn belongs_to(
    scope: Scope,
    integration: Seq<char>,
    targets: Seq<Takeover>,
    at: Slot,
) -> bool {
    image::is_under(at.key, integration_rules::state_key_of(scope, integration)) || is_target_slot(
        scope,
        targets,
        targets.len() as int,
        at,
    )
}

/// No place belongs to both registrations of the file manager.
proof fn lemma_own_places_differ(at: Slot)
    ensures
        ({
            let scope = integration_rules::production_scope();
            !(belongs_to(
                scope,
                integration_rules::FOLDER_STATE@,
                integration_rules::folder_takeovers(),
                at,
            ) && belongs_to(
                scope,
                integration_rules::WIN_E_STATE@,
                integration_rules::win_e_takeovers(),
                at,
            ))
        }),
{
    reveal_strlit("Software\\Classes");
    reveal_strlit("Software\\AsterFiles\\ShellIntegration");
    reveal_strlit("\\");
    reveal_strlit("FolderOpen");
    reveal_strlit("WinE");
    reveal_strlit("Folder\\shell\\open\\command");
    reveal_strlit("Folder\\shell\\explore\\command");
    reveal_strlit(
        "CLSID\\{52205fd8-5dfb-447d-801a-d0b52f2e83e1}\\shell\\opennewwindow\\command",
    );
    let scope = integration_rules::production_scope();
    let folder = integration_rules::folder_takeovers();
    let win_e = integration_rules::win_e_takeovers();
    let folder_state = integration_rules::state_key_of(scope, integration_rules::FOLDER_STATE@);
    let win_e_state = integration_rules::state_key_of(scope, integration_rules::WIN_E_STATE@);
    let mark = scope.state.len() as int + 1;
    assert(folder_state[mark] == 'F');
    assert(win_e_state[mark] == 'W');
    if image::is_under(at.key, folder_state) {
        assert(at.key.subrange(0, folder_state.len() as int) =~= folder_state);
        assert(at.key[mark] == folder_state[mark]);
        assert(at.key[9] == folder_state[9]);
    }
    if image::is_under(at.key, win_e_state) {
        assert(at.key.subrange(0, win_e_state.len() as int) =~= win_e_state);
        assert(at.key[mark] == win_e_state[mark]);
        assert(at.key[9] == win_e_state[9]);
    }
    assert(folder_state[9] == 'A' && win_e_state[9] == 'A');
    let class = scope.classes.len() as int + 1;
    if is_target_slot(scope, folder, folder.len() as int, at) {
        let i = choose|i: int|
            0 <= i < folder.len() && (at == integration_rules::command_slot(
                scope,
                #[trigger] folder[i],
            ) || at == integration_rules::delegate_slot(scope, folder[i]));
        assert(at.key == integration_rules::class_key_of(scope, folder[i].key));
        assert(folder[i].key[0] == 'F');
        assert(at.key[class] == 'F');
        assert(at.key[9] == 'C');
    }
    if is_target_slot(scope, win_e, win_e.len() as int, at) {
        let i = choose|i: int|
            0 <= i < win_e.len() && (at == integration_rules::command_slot(
                scope,
                #[trigger] win_e[i],
            ) || at == integration_rules::delegate_slot(scope, win_e[i]));
        assert(at.key == integration_rules::class_key_of(scope, win_e[i].key));
        assert(win_e[i].key[0] == 'C');
        assert(at.key[class] == 'C');
        assert(at.key[9] == 'C');
    }
}

/// Registering folders and giving them back leaves the key for a new window as it is, and the other
/// way round.
pub proof fn law_own_registrations_leave_each_other_alone(
    registry: Registry,
    executable: Seq<u16>,
    at: Slot,
)
    ensures
        ({
            let scope = integration_rules::production_scope();
            let folder = integration_rules::folder_takeovers();
            let win_e = integration_rules::win_e_takeovers();
            let folder_state = integration_rules::FOLDER_STATE@;
            let win_e_state = integration_rules::WIN_E_STATE@;
            &&& belongs_to(scope, win_e_state, win_e, at) ==> {
                &&& integration_rules::restore_outcome(
                    registry,
                    scope,
                    folder_state,
                    folder,
                ).registry.get(at) == registry.get(at)
                &&& integration_rules::enable_outcome(
                    registry,
                    scope,
                    folder_state,
                    folder,
                    executable,
                ).registry.get(at) == registry.get(at)
            }
            &&& belongs_to(scope, folder_state, folder, at) ==> {
                &&& integration_rules::restore_outcome(
                    registry,
                    scope,
                    win_e_state,
                    win_e,
                ).registry.get(at) == registry.get(at)
                &&& integration_rules::enable_outcome(
                    registry,
                    scope,
                    win_e_state,
                    win_e,
                    executable,
                ).registry.get(at) == registry.get(at)
            }
        }),
{
    let scope = integration_rules::production_scope();
    let folder = integration_rules::folder_takeovers();
    let win_e = integration_rules::win_e_takeovers();
    let folder_state = integration_rules::FOLDER_STATE@;
    let win_e_state = integration_rules::WIN_E_STATE@;
    lemma_own_places_differ(at);
    if belongs_to(scope, win_e_state, win_e, at) {
        law_restore_touches_only_its_own(registry, scope, folder_state, folder, at);
        law_enable_touches_only_its_own(registry, scope, folder_state, folder, executable, at);
    }
    if belongs_to(scope, folder_state, folder, at) {
        law_restore_touches_only_its_own(registry, scope, win_e_state, win_e, at);
        law_enable_touches_only_its_own(registry, scope, win_e_state, win_e, executable, at);
    }
}

/// The folders of the file manager: restoring gives each of the two commands that is still ours
/// back what it had before the first registration, leaves one that another program has replaced,
/// shows as disabled, and leaves the key for a new window as it is.
pub proof fn law_folders_are_restored(
    registry: Registry,
    executable: Seq<u16>,
    events: Seq<Event>,
    current: Seq<u16>,
    bound_exists: bool,
    i: int,
    other: Slot,
)
    requires
        ({
            let scope = integration_rules::production_scope();
            let folder = integration_rules::folder_takeovers();
            let name = integration_rules::FOLDER_STATE@;
            let state = integration_rules::state_key_of(scope, name);
            let enabled = integration_rules::enable_outcome(
                registry,
                scope,
                name,
                folder,
                executable,
            );
            let now = after_events(enabled.registry, scope, name, folder, events);
            &&& integration_rules::dword_in(
                registry,
                integration_rules::complete_slot(state),
            ) != Ok::<Option<u32>, Seq<char>>(Some(1))
            &&& enabled.error is None
            &&& state_untouched(events, state)
            &&& integration_rules::restore_outcome(now, scope, name, folder).error is None
            &&& 0 <= i < folder.len()
            &&& belongs_to(
                scope,
                integration_rules::WIN_E_STATE@,
                integration_rules::win_e_takeovers(),
                other,
            )
        }),
    ensures
        ({
            let scope = integration_rules::production_scope();
            let folder = integration_rules::folder_takeovers();
            let name = integration_rules::FOLDER_STATE@;
            let enabled = integration_rules::enable_outcome(
                registry,
                scope,
                name,
                folder,
                executable,
            );
            let now = after_events(enabled.registry, scope, name, folder, events);
            let after = integration_rules::restore_outcome(now, scope, name, folder).registry;
            let command = integration_rules::command_slot(scope, folder[i]);
            let delegate = integration_rules::delegate_slot(scope, folder[i]);
            let original = original_of(registry, scope, folder[i]);
            &&& after.get(command) == if still_ours(now, scope, name, folder[i]) {
                original.command
            } else {
                now.get(command)
            }
            &&& after.get(delegate) == if still_ours(now, scope, name, folder[i]) {
                original.delegate
            } else {
                now.get(delegate)
            }
            &&& integration_rules::status_of(after, scope, name, folder, current, bound_exists)
                == Ok::<Status, Seq<char>>(Status::Disabled)
            &&& after.get(other) == now.get(other)
        }),
{
    let scope = integration_rules::production_scope();
    let folder = integration_rules::folder_takeovers();
    let name = integration_rules::FOLDER_STATE@;
    law_own_registrations_are_separate();
    law_restore_ends_every_history(
        registry,
        scope,
        name,
        folder,
        executable,
        events,
        current,
        bound_exists,
        i,
    );
    let enabled = integration_rules::enable_outcome(registry, scope, name, folder, executable);
    let now = after_events(enabled.registry, scope, name, folder, events);
    law_own_registrations_leave_each_other_alone(now, executable, other);
}

// ---- the status ----

/// A registration for the program that runs shows as enabled.
pub proof fn law_registered_shows_as_enabled(
    registry: Registry,
    scope: Scope,
    integration: Seq<char>,
    targets: Seq<Takeover>,
    before: Seq<Original>,
    executable: Seq<u16>,
    current: Seq<u16>,
)
    requires
        registered(
            registry,
            scope,
            integration_rules::state_key_of(scope, integration),
            targets,
            before,
            executable,
        ),
        valid_executable(executable),
        winpath::same_path(executable, current),
    ensures
        integration_rules::status_of(registry, scope, integration, targets, current, true) == Ok::<
            Status,
            Seq<char>,
        >(Status::Enabled(current)),
{
    let state = integration_rules::state_key_of(scope, integration);
    lemma_dword_read(registry, integration_rules::active_slot(state), 1);
    law_texts_are_read_back(registry, integration_rules::bound_slot(state), executable);
}

// ---- what a caller sees ----

/// Text that is written to the registry is read back, from that place alone; so are numbers.
pub proof fn law_what_is_written_is_read(
    registry: &mut RegistryImage,
    key: &str,
    name: &str,
    units: &[u16],
    found: Result<Option<Vec<u16>>, IoError>,
    other_key: &str,
    other_name: &str,
    before: Option<RegistryValue>,
    after: Option<RegistryValue>,
)
    requires
        old(registry).consistent(),
        units@.len() > 0 ==> units@.last() != 0,
        other_key@ != key@ || other_name@ != name@,
        call_ensures(integration_rules::write_string, (registry, key, name, units), ()),
        call_ensures(integration_rules::read_string, (&*final(registry), key, name), found),
        call_ensures(RegistryImage::read_value, (&*old(registry), other_key, other_name), before),
        call_ensures(RegistryImage::read_value, (&*final(registry), other_key, other_name), after),
    ensures
        found is Ok && found->Ok_0 is Some && found->Ok_0->0@ == units@,
        after is Some <==> before is Some,
        after is Some ==> after->0.value_type == before->0.value_type && after->0.data@
            == before->0.data@,
{
    law_texts_are_read_back(final(registry)@, image::slot(key@, name@), units@);
    let other = image::slot(other_key@, other_name@);
    assert(final(registry)@.get(other) == old(registry)@.get(other));
}

/// A number that is written is read back, and deleting takes away one value.
pub proof fn law_numbers_are_read_back(
    first: &mut RegistryImage,
    second: &mut RegistryImage,
    key: &str,
    name: &str,
    n: u32,
    found: Result<Option<u32>, IoError>,
    gone: Result<Option<u32>, IoError>,
)
    requires
        old(first).consistent(),
        call_ensures(integration_rules::write_dword, (first, key, name, n), ()),
        call_ensures(integration_rules::read_dword, (&*final(first), key, name), found),
        *old(second) == *final(first),
        call_ensures(RegistryImage::delete_value, (second, key, name), ()),
        call_ensures(integration_rules::read_dword, (&*final(second), key, name), gone),
    ensures
        found == Ok::<Option<u32>, IoError>(Some(n)),
        gone == Ok::<Option<u32>, IoError>(None),
{
    lemma_dword_read(final(first)@, image::slot(key@, name@), n);
}

/// Deleting a key takes away its values and those of the keys below it, and no others.
pub proof fn law_deleting_a_key_takes_what_lies_below(
    registry: &mut RegistryImage,
    path: &str,
    key: &str,
    name: &str,
    before: Option<RegistryValue>,
    after: Option<RegistryValue>,
)
    requires
        old(registry).consistent(),
        call_ensures(RegistryImage::delete_tree, (registry, path), ()),
        call_ensures(RegistryImage::read_value, (&*old(registry), key, name), before),
        call_ensures(RegistryImage::read_value, (&*final(registry), key, name), after),
    ensures
        key@ == path@ ==> after is None,
        path@.push('\\').is_prefix_of(key@) ==> after is None,
        key@ != path@ && !path@.push('\\').is_prefix_of(key@) ==> (after is Some <==> before is Some)
            && (after is Some ==> after->0.value_type == before->0.value_type && after->0.data@
            == before->0.data@),
{
    let at = image::slot(key@, name@);
    let n = path@.len() as int;
    if key@.len() > n {
        assert(path@.push('\\').is_prefix_of(key@) <==> image::is_under(key@, path@)) by {
            if path@.push('\\').is_prefix_of(key@) {
                assert(key@.subrange(0, n) =~= path@) by {
                    assert forall|i: int| 0 <= i < n implies key@[i] == path@[i] by {
                        assert(path@.push('\\')[i] == key@.subrange(0, n + 1)[i]);
                    }
                }
                assert(path@.push('\\')[n] == key@.subrange(0, n + 1)[n]);
            }
            if image::is_under(key@, path@) {
                assert(key@.subrange(0, n + 1) =~= path@.push('\\')) by {
                    assert forall|i: int| 0 <= i < n implies key@[i] == path@[i] by {
                        assert(key@.subrange(0, n)[i] == key@[i]);
                    }
                }
            }
        }
    }
    assert(final(registry)@.get(at) == if image::is_under(key@, path@) {
        None
    } else {
        old(registry)@.get(at)
    });
}

/// A command is the program between quotes, with its argument between quotes behind it.
pub proof fn law_a_command_names_its_program(
    executable: &[u16],
    argument: &str,
    plain: Vec<u16>,
    command: Vec<u16>,
)
    requires
        call_ensures(integration_rules::command_for, (executable, None::<&str>), plain),
        call_ensures(integration_rules::command_for, (executable, Some(argument)), command),
    ensures
        plain@ == seq![0x22u16] + executable@ + seq![0x22u16],
        command@ == plain@ + (seq![0x20u16, 0x22] + text::utf16_encoded(argument@) + seq![0x22u16]),
{
    assert(plain@ =~= seq![0x22u16] + executable@ + seq![0x22u16]);
}

/// A command is ours where the name of our program occurs in it, in either case; no command is ours
/// where there is none.
pub proof fn law_own_commands_are_recognised(
    head: Seq<u16>,
    tail: Seq<u16>,
    command: Option<Vec<u16>>,
    own: bool,
    missing: bool,
)
    requires
        command is Some ==> command->0@ == head + text::utf16_encoded("asterfiles.exe"@) + tail,
        call_ensures(integration_rules::command_invokes_asterfiles, (&command,), own),
        call_ensures(
            integration_rules::command_invokes_asterfiles,
            (&None::<Vec<u16>>,),
            missing,
        ),
    ensures
        own <==> command is Some,
        !missing,
{
    if command is Some {
        let units = command->0@;
        let name = text::utf16_encoded("asterfiles.exe"@);
        let low = crate::wide::ascii_lower(units);
        lemma_own_name_is_lower();
        let n = head.len() as int;
        assert(low.subrange(n, n + name.len()) =~= name) by {
            assert forall|i: int| 0 <= i < name.len() implies low[n + i] == name[i] by {
                assert(units[n + i] == name[i]);
                assert(crate::wide::ascii_lower(name)[i] == name[i]);
            }
        }
        assert(integration_rules::occurs(low, name));
    }
}

proof fn lemma_own_name_is_lower()
    ensures
        crate::wide::ascii_lower(text::utf16_encoded("asterfiles.exe"@)) == text::utf16_encoded(
            "asterfiles.exe"@,
        ),
{
    reveal_strlit("asterfiles.exe");
    assert forall|i: int| 0 <= i < "asterfiles.exe"@.len() implies is_small(
        #[trigger] "asterfiles.exe"@[i],
    ) by {
        let c = "asterfiles.exe"@[i];
        assert(c == 'a' || c == 's' || c == 't' || c == 'e' || c == 'r' || c == 'f' || c == 'i' || c
            == 'l' || c == '.' || c == 'x');
    }
    lemma_lower_text("asterfiles.exe"@);
}

/// A character of ASCII that is no capital letter.
spec fn is_small(c: char) -> bool {
    0 <= c as int <= 0x40 || 0x5b <= c as int <= 0x7f
}

proof fn lemma_lower_text(shown: Seq<char>)
    requires
        forall|i: int| 0 <= i < shown.len() ==> is_small(#[trigger] shown[i]),
    ensures
        crate::wide::ascii_lower(text::utf16_encoded(shown)) == text::utf16_encoded(shown),
    decreases shown.len(),
{
    let units = text::utf16_encoded(shown);
    if shown.len() > 0 {
        let rest = shown.drop_last();
        assert forall|i: int| 0 <= i < rest.len() implies is_small(#[trigger] rest[i]) by {
            assert(rest[i] == shown[i]);
        }
        lemma_lower_text(rest);
        let last = shown[shown.len() - 1];
        assert(is_small(last));
        let head = text::utf16_encoded(rest);
        assert(units == head + text::char_utf16(last));
        assert(text::char_utf16(last).len() == 1);
        let unit = text::char_utf16(last)[0];
        assert(unit < 0x41 || unit > 0x5a);
        assert forall|i: int| 0 <= i < units.len() implies crate::wide::ascii_lower(units)[i]
            == units[i] by {
            if i < head.len() {
                assert(crate::wide::ascii_lower(head)[i] == head[i]);
                assert(units[i] == head[i]);
            } else {
                assert(units[i] == unit);
            }
        }
    }
    assert(crate::wide::ascii_lower(units) =~= units);
}

/// A registration that failed is left alone where an earlier one had kept its backups, is forgotten
/// where its own were not complete, and is rolled back otherwise.
pub proof fn law_a_failed_registration_is_undone(plan: EnablePlan, failed: usize, way: Recovery)
    requires
        call_ensures(integration_rules::recovery, (plan, failed), way),
    ensures
        way is Leave <==> plan.had_backup,
        way is DropState <==> !plan.had_backup && failed < plan.backup_operations,
        way is RollBack <==> !plan.had_backup && failed >= plan.backup_operations,
{
}

proof fn lemma_folder_slots()
    ensures
        ({
            let scope = integration_rules::production_scope();
            let folder = integration_rules::folder_takeovers();
            &&& folder.len() == 2
            &&& integration_rules::command_slot(scope, folder[0]) == image::slot(
                "Software\\Classes\\Folder\\shell\\open\\command"@,
                ""@,
            )
            &&& integration_rules::command_slot(scope, folder[1]) == image::slot(
                "Software\\Classes\\Folder\\shell\\explore\\command"@,
                ""@,
            )
            &&& integration_rules::delegate_slot(scope, folder[0]) == image::slot(
                "Software\\Classes\\Folder\\shell\\open\\command"@,
                "DelegateExecute"@,
            )
            &&& integration_rules::delegate_slot(scope, folder[1]) == image::slot(
                "Software\\Classes\\Folder\\shell\\explore\\command"@,
                "DelegateExecute"@,
            )
        }),
{
    reveal_strlit("Software\\Classes");
    reveal_strlit("\\");
    reveal_strlit("Folder\\shell\\open\\command");
    reveal_strlit("Folder\\shell\\explore\\command");
    reveal_strlit("Software\\Classes\\Folder\\shell\\open\\command");
    reveal_strlit("Software\\Classes\\Folder\\shell\\explore\\command");
    assert("Software\\Classes"@ + "\\"@ + "Folder\\shell\\open\\command"@
        =~= "Software\\Classes\\Folder\\shell\\open\\command"@);
    assert("Software\\Classes"@ + "\\"@ + "Folder\\shell\\explore\\command"@
        =~= "Software\\Classes\\Folder\\shell\\explore\\command"@);
}

/// Once folders are registered, opening and exploring one starts our program with the folder, and the
/// registration shows as enabled for that program. Restoring gives both commands back what they had,
/// where that was not ours, and then shows as disabled.
pub proof fn law_folders_open_with_us_until_restored(
    first: &mut RegistryImage,
    second: &mut RegistryImage,
    executable: &[u16],
    plan: EnablePlan,
    key: &str,
    default: &str,
    name: &str,
    earlier: Result<Option<Vec<u16>>, IoError>,
    own: bool,
    had: Option<RegistryValue>,
    command: Result<Option<Vec<u16>>, IoError>,
    shown: Result<ShellIntegrationStatus, IoError>,
    restored: Result<(), IoError>,
    has: Option<RegistryValue>,
    finally: Result<ShellIntegrationStatus, IoError>,
)
    requires
        old(first).consistent(),
        valid_executable(executable@),
        !plan.had_backup,
        key@ == "Software\\Classes\\Folder\\shell\\open\\command"@ || key@
            == "Software\\Classes\\Folder\\shell\\explore\\command"@,
        default@ == ""@,
        name@ == ""@ || name@ == "DelegateExecute"@,
        call_ensures(integration_rules::read_string, (&*old(first), key, default), earlier),
        earlier is Ok ==> call_ensures(
            integration_rules::command_invokes_asterfiles,
            (&earlier->Ok_0,),
            own,
        ),
        call_ensures(RegistryImage::read_value, (&*old(first), key, name), had),
        call_ensures(integration_rules::enable_folder_open, (first, executable), Ok(plan)),
        call_ensures(integration_rules::read_string, (&*final(first), key, default), command),
        call_ensures(
            integration_rules::folder_open_status,
            (&*final(first), executable, true),
            shown,
        ),
        *old(second) == *final(first),
        call_ensures(integration_rules::restore_folder_open, (second,), restored),
        call_ensures(RegistryImage::read_value, (&*final(second), key, name), has),
        call_ensures(
            integration_rules::folder_open_status,
            (&*final(second), executable, true),
            finally,
        ),
    ensures
        command is Ok && command->Ok_0 is Some && command->Ok_0->0@ == seq![0x22u16] + executable@
            + seq![0x22u16, 0x20, 0x22] + text::utf16_encoded("%1\\."@) + seq![0x22u16],
        shown is Ok && shown->Ok_0 is Enabled && shown->Ok_0->executable@ == executable@,
        restored is Ok,
        earlier is Ok && !own ==> (has is Some <==> had is Some) && (has is Some
            ==> has->0.value_type == had->0.value_type && has->0.data@ == had->0.data@),
        finally is Ok && finally->Ok_0 is Disabled,
{
    let scope = integration_rules::production_scope();
    let folder = integration_rules::folder_takeovers();
    let state_name = integration_rules::FOLDER_STATE@;
    let state = integration_rules::state_key_of(scope, state_name);
    let before = old(first)@;
    let enabled = final(first)@;
    lemma_folder_slots();
    law_own_registrations_are_separate();
    law_enable_keeps_what_it_replaces(before, scope, state_name, folder, executable@);
    lemma_originals_are_returnable(before, scope, folder);
    law_registered_shows_as_enabled(
        enabled,
        scope,
        state_name,
        folder,
        originals(before, scope, folder),
        executable@,
        executable@,
    );
    let i: int = if key@ == "Software\\Classes\\Folder\\shell\\open\\command"@ {
        0
    } else {
        1
    };
    assert(integration_rules::is_owned(enabled, scope, folder[i], executable@));
    let written = integration_rules::command_text(executable@, folder[i].argument);
    assert(written =~= seq![0x22u16] + executable@ + seq![0x22u16, 0x20, 0x22]
        + text::utf16_encoded("%1\\."@) + seq![0x22u16]);
    assert(written.last() == 0x22);
    law_texts_are_read_back(enabled, integration_rules::command_slot(scope, folder[i]), written);
    law_restore_gives_back(
        enabled,
        scope,
        state_name,
        folder,
        originals(before, scope, folder),
        executable@,
        i,
    );
    law_restore_gives_back_what_is_ours(
        enabled,
        scope,
        state_name,
        folder,
        originals(before, scope, folder),
        executable@,
        true,
        i,
    );
    assert(originals(before, scope, folder)[i] == original_of(before, scope, folder[i]));
}

/// The key whose command the Shell runs for a new window.
pub open spec fn new_window_key() -> Seq<char> {
    "Software\\Classes\\CLSID\\{52205fd8-5dfb-447d-801a-d0b52f2e83e1}\\shell\\opennewwindow\\command"@
}

proof fn lemma_new_window_slots()
    ensures
        ({
            let scope = integration_rules::production_scope();
            let targets = integration_rules::win_e_takeovers();
            &&& targets.len() == 1
            &&& integration_rules::command_slot(scope, targets[0]) == image::slot(
                new_window_key(),
                ""@,
            )
            &&& integration_rules::delegate_slot(scope, targets[0]) == image::slot(
                new_window_key(),
                "DelegateExecute"@,
            )
        }),
{
    reveal_strlit("Software\\Classes");
    reveal_strlit("\\");
    reveal_strlit(
        "CLSID\\{52205fd8-5dfb-447d-801a-d0b52f2e83e1}\\shell\\opennewwindow\\command",
    );
    reveal_strlit(
        "Software\\Classes\\CLSID\\{52205fd8-5dfb-447d-801a-d0b52f2e83e1}\\shell\\opennewwindow\\command",
    );
    assert("Software\\Classes"@ + "\\"@
        + "CLSID\\{52205fd8-5dfb-447d-801a-d0b52f2e83e1}\\shell\\opennewwindow\\command"@
        =~= new_window_key());
}

/// The same holds of the key for a new window: once it is registered it starts our program, and
/// restoring gives its command back.
pub proof fn law_new_windows_are_ours_until_restored(
    first: &mut RegistryImage,
    second: &mut RegistryImage,
    executable: &[u16],
    plan: EnablePlan,
    key: &str,
    default: &str,
    name: &str,
    earlier: Result<Option<Vec<u16>>, IoError>,
    own: bool,
    had: Option<RegistryValue>,
    command: Result<Option<Vec<u16>>, IoError>,
    shown: Result<ShellIntegrationStatus, IoError>,
    restored: Result<(), IoError>,
    has: Option<RegistryValue>,
    finally: Result<ShellIntegrationStatus, IoError>,
)
    requires
        old(first).consistent(),
        valid_executable(executable@),
        !plan.had_backup,
        key@ == new_window_key(),
        default@ == ""@,
        name@ == ""@ || name@ == "DelegateExecute"@,
        call_ensures(integration_rules::read_string, (&*old(first), key, default), earlier),
        earlier is Ok ==> call_ensures(
            integration_rules::command_invokes_asterfiles,
            (&earlier->Ok_0,),
            own,
        ),
        call_ensures(RegistryImage::read_value, (&*old(first), key, name), had),
        call_ensures(integration_rules::enable_win_e, (first, executable), Ok(plan)),
        call_ensures(integration_rules::read_string, (&*final(first), key, default), command),
        call_ensures(
            integration_rules::win_e_status,
            (&*final(first), executable, true),
            shown,
        ),
        *old(second) == *final(first),
        call_ensures(integration_rules::restore_win_e, (second,), restored),
        call_ensures(RegistryImage::read_value, (&*final(second), key, name), has),
        call_ensures(
            integration_rules::win_e_status,
            (&*final(second), executable, true),
            finally,
        ),
    ensures
        command is Ok && command->Ok_0 is Some && command->Ok_0->0@ == seq![0x22u16] + executable@
            + seq![0x22u16],
        shown is Ok && shown->Ok_0 is Enabled && shown->Ok_0->executable@ == executable@,
        restored is Ok,
        earlier is Ok && !own ==> (has is Some <==> had is Some) && (has is Some
            ==> has->0.value_type == had->0.value_type && has->0.data@ == had->0.data@),
        finally is Ok && finally->Ok_0 is Disabled,
{
    let scope = integration_rules::production_scope();
    let folder = integration_rules::win_e_takeovers();
    let state_name = integration_rules::WIN_E_STATE@;
    let state = integration_rules::state_key_of(scope, state_name);
    let before = old(first)@;
    let enabled = final(first)@;
    lemma_new_window_slots();
    law_own_registrations_are_separate();
    law_enable_keeps_what_it_replaces(before, scope, state_name, folder, executable@);
    lemma_originals_are_returnable(before, scope, folder);
    law_registered_shows_as_enabled(
        enabled,
        scope,
        state_name,
        folder,
        originals(before, scope, folder),
        executable@,
        executable@,
    );
    let i: int = 0;
    assert(integration_rules::is_owned(enabled, scope, folder[i], executable@));
    let written = integration_rules::command_text(executable@, folder[i].argument);
    assert(written =~= seq![0x22u16] + executable@ + seq![0x22u16]);
    assert(written.last() == 0x22);
    law_texts_are_read_back(enabled, integration_rules::command_slot(scope, folder[i]), written);
    law_restore_gives_back(
        enabled,
        scope,
        state_name,
        folder,
        originals(before, scope, folder),
        executable@,
        i,
    );
    law_restore_gives_back_what_is_ours(
        enabled,
        scope,
        state_name,
        folder,
        originals(before, scope, folder),
        executable@,
        true,
        i,
    );
    assert(originals(before, scope, folder)[i] == original_of(before, scope, folder[i]));
}

/// What cannot be written back is deleted instead, at the same place; nothing stands in for a deletion.
pub proof fn law_a_failed_write_becomes_a_deletion(
    operation: image::RegistryOperation,
    fallback: Option<image::RegistryOperation>,
)
    requires
        call_ensures(integration_rules::restore_fallback, (&operation,), fallback),
    ensures
        fallback is Some <==> operation is Write,
        operation matches image::RegistryOperation::Write { key, name, .. } ==> {
            &&& fallback->0 is DeleteValue
            &&& fallback->0->DeleteValue_key@ == key@
            &&& fallback->0->DeleteValue_name@ == name@
        },
{
}

} // verus!
