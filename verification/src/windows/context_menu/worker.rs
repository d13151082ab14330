//! The worker that keeps one menu open at a time and answers commands about it.
use vstd::prelude::*;

use crate::errors;
use crate::errors::{ErrorKind, IoError};
use crate::windows::context_menu::{
    ClassicMenuInvocation, ClassicMenuItem, ShellMenuLoadTarget, ShellMenuRequestId,
    ShellMenuSessionId, ShellMenuSubmenuToken,
};

verus! {

#[derive(Debug)]
pub enum ShellMenuCommand {
    Load {
        session_id: ShellMenuSessionId,
        request_id: ShellMenuRequestId,
        target: ShellMenuLoadTarget,
        include_extended_verbs: bool,
        owner_window: i64,
    },
    LoadSubmenu {
        session_id: ShellMenuSessionId,
        request_id: ShellMenuRequestId,
        submenu_request_id: ShellMenuRequestId,
        token: ShellMenuSubmenuToken,
    },
    Invoke {
        session_id: ShellMenuSessionId,
        request_id: ShellMenuRequestId,
        command_id: u32,
        owner_window: i64,
        screen_x: i32,
        screen_y: i32,
    },
    Close { session_id: ShellMenuSessionId, request_id: ShellMenuRequestId },
}

#[derive(Debug)]
pub enum ShellMenuEvent {
    Loaded {
        session_id: ShellMenuSessionId,
        request_id: ShellMenuRequestId,
        items: Vec<ClassicMenuItem>,
        elapsed_ms: u128,
    },
    SubmenuLoaded {
        session_id: ShellMenuSessionId,
        request_id: ShellMenuRequestId,
        submenu_request_id: ShellMenuRequestId,
        token: ShellMenuSubmenuToken,
        items: Vec<ClassicMenuItem>,
        elapsed_ms: u128,
    },
    SubmenuError {
        session_id: ShellMenuSessionId,
        request_id: ShellMenuRequestId,
        submenu_request_id: ShellMenuRequestId,
        token: ShellMenuSubmenuToken,
        message: String,
        elapsed_ms: u128,
    },
    Invoked {
        session_id: ShellMenuSessionId,
        request_id: ShellMenuRequestId,
        invocation: ClassicMenuInvocation,
        elapsed_ms: u128,
    },
    Error {
        session_id: ShellMenuSessionId,
        request_id: ShellMenuRequestId,
        operation: &'static str,
        message: String,
        elapsed_ms: u128,
    },
    Closed { session_id: ShellMenuSessionId, request_id: ShellMenuRequestId },
}

/// What the worker does with a command.
#[derive(Debug)]
pub enum WorkerAction {
    /// Open the menu for this target, then call `loaded`. The present menu is released once the
    /// new one has been read.
    Open { target: ShellMenuLoadTarget, include_extended_verbs: bool, owner_window: i64 },
    /// Read a submenu of the present menu, then call `submenu_loaded`.
    ReadSubmenu { token: ShellMenuSubmenuToken },
    /// Carry out an item of the present menu, then call `invoked`.
    Invoke { command_id: u32, owner_window: i64, screen_x: i32, screen_y: i32 },
    /// The menu that is meant is not open: call `submenu_loaded` or `invoked` with this error.
    Refuse { error: IoError },
    /// Send this event at once; the present menu is released where `release` says so.
    Answer { release: bool, event: ShellMenuEvent },
}

/// The menu that is open, by its session and request.
#[derive(Debug, Clone, Copy, PartialEq, Eq)]
pub struct MenuWorker {
    pub session: Option<(ShellMenuSessionId, ShellMenuRequestId)>,
}

/// The command is about the menu that is open.
pub open spec fn is_open(
    worker: MenuWorker,
    session_id: ShellMenuSessionId,
    request_id: ShellMenuRequestId,
) -> bool {
    worker.session == Some((session_id, request_id))
}

/// The command is refused, because another menu is meant than the one that is open.
pub open spec fn is_refusal(action: WorkerAction) -> bool {
    action matches WorkerAction::Refuse { error } && errors::fails_with(
        error,
        ErrorKind::NotFound,
        "shell menu session not found"@,
    )
}

/// The worker after a command: only closing the open menu changes it at once.
pub open spec fn after_command(worker: MenuWorker, command: ShellMenuCommand) -> MenuWorker {
    match command {
        ShellMenuCommand::Close { session_id, request_id } if is_open(
            worker,
            session_id,
            request_id,
        ) => MenuWorker { session: None },
        _ => worker,
    }
}

/// The action for a command.
pub open spec fn is_action(
    worker: MenuWorker,
    command: ShellMenuCommand,
    action: WorkerAction,
) -> bool {
    match command {
        ShellMenuCommand::Load { target, include_extended_verbs, owner_window, .. } => action == (
        WorkerAction::Open { target, include_extended_verbs, owner_window }),
        ShellMenuCommand::LoadSubmenu { session_id, request_id, token, .. } => if is_open(
            worker,
            session_id,
            request_id,
        ) {
            action == (WorkerAction::ReadSubmenu { token })
        } else {
            is_refusal(action)
        },
        ShellMenuCommand::Invoke {
            session_id,
            request_id,
            command_id,
            owner_window,
            screen_x,
            screen_y,
        } => if is_open(worker, session_id, request_id) {
            action == (WorkerAction::Invoke { command_id, owner_window, screen_x, screen_y })
        } else {
            is_refusal(action)
        },
        ShellMenuCommand::Close { session_id, request_id } => action == (WorkerAction::Answer {
            release: is_open(worker, session_id, request_id),
            event: ShellMenuEvent::Closed { session_id, request_id },
        }),
    }
}

fn refuse() -> (action: WorkerAction)
    ensures
        is_refusal(action),
{
    let error = IoError::new(ErrorKind::NotFound, "shell menu session not found");
    WorkerAction::Refuse { error }
}

impl MenuWorker {
    pub fn new() -> (worker: MenuWorker)
        ensures
            worker.session is None,
    {
        MenuWorker { session: None }
    }

    fn serves(&self, session_id: ShellMenuSessionId, request_id: ShellMenuRequestId) -> (open: bool)
        ensures
            open == is_open(*self, session_id, request_id),
    {
        match self.session {
            Some((session, request)) => session == session_id && request == request_id,
            None => false,
        }
    }

    /// The action for a command.
    pub fn receive(&mut self, command: ShellMenuCommand) -> (action: WorkerAction)
        ensures
            *final(self) == after_command(*old(self), command),
            is_action(*old(self), command, action),
    {
        match command {
            ShellMenuCommand::Load { target, include_extended_verbs, owner_window, .. } => {
                WorkerAction::Open { target, include_extended_verbs, owner_window }
            },
            ShellMenuCommand::LoadSubmenu { session_id, request_id, token, .. } => {
                if self.serves(session_id, request_id) {
                    WorkerAction::ReadSubmenu { token }
                } else {
                    refuse()
                }
            },
            ShellMenuCommand::Invoke {
                session_id,
                request_id,
                command_id,
                owner_window,
                screen_x,
                screen_y,
            } => {
                if self.serves(session_id, request_id) {
                    WorkerAction::Invoke { command_id, owner_window, screen_x, screen_y }
                } else {
                    refuse()
                }
            },
            ShellMenuCommand::Close { session_id, request_id } => {
                let release = self.serves(session_id, request_id);
                if release {
                    self.session = None;
                }
                WorkerAction::Answer {
                    release,
                    event: ShellMenuEvent::Closed { session_id, request_id },
                }
            },
        }
    }

    /// A menu has been opened and read, or could not be.
    pub fn loaded(
        &mut self,
        session_id: ShellMenuSessionId,
        request_id: ShellMenuRequestId,
        result: Result<Vec<ClassicMenuItem>, IoError>,
        elapsed_ms: u128,
    ) -> (event: ShellMenuEvent)
        ensures
            match result {
                Ok(items) => is_open(*final(self), session_id, request_id) && event == (
                ShellMenuEvent::Loaded { session_id, request_id, items, elapsed_ms }),
                Err(error) => *final(self) == *old(self) && (event matches ShellMenuEvent::Error {
                    session_id: s,
                    request_id: r,
                    operation,
                    message,
                    elapsed_ms: e,
                } && s == session_id && r == request_id && operation@ == "load"@ && message
                    == error.message && e == elapsed_ms),
            },
    {
        match result {
            Ok(items) => {
                self.session = Some((session_id, request_id));
                ShellMenuEvent::Loaded { session_id, request_id, items, elapsed_ms }
            },
            Err(error) => ShellMenuEvent::Error {
                session_id,
                request_id,
                operation: "load",
                message: error.message,
                elapsed_ms,
            },
        }
    }

    /// A submenu has been read, or could not be.
    pub fn submenu_loaded(
        &self,
        session_id: ShellMenuSessionId,
        request_id: ShellMenuRequestId,
        submenu_request_id: ShellMenuRequestId,
        token: ShellMenuSubmenuToken,
        result: Result<Vec<ClassicMenuItem>, IoError>,
        elapsed_ms: u128,
    ) -> (event: ShellMenuEvent)
        ensures
            match result {
                Ok(items) => event == (ShellMenuEvent::SubmenuLoaded {
                    session_id,
                    request_id,
                    submenu_request_id,
                    token,
                    items,
                    elapsed_ms,
                }),
                Err(error) => event == (ShellMenuEvent::SubmenuError {
                    session_id,
                    request_id,
                    submenu_request_id,
                    token,
                    message: error.message,
                    elapsed_ms,
                }),
            },
    {
        match result {
            Ok(items) => ShellMenuEvent::SubmenuLoaded {
                session_id,
                request_id,
                submenu_request_id,
                token,
                items,
                elapsed_ms,
            },
            Err(error) => ShellMenuEvent::SubmenuError {
                session_id,
                request_id,
                submenu_request_id,
                token,
                message: error.message,
                elapsed_ms,
            },
        }
    }

    /// An item has been carried out, or could not be.
    pub fn invoked(
        &self,
        session_id: ShellMenuSessionId,
        request_id: ShellMenuRequestId,
        result: Result<ClassicMenuInvocation, IoError>,
        elapsed_ms: u128,
    ) -> (event: ShellMenuEvent)
        ensures
            match result {
                Ok(invocation) => event == (ShellMenuEvent::Invoked {
                    session_id,
                    request_id,
                    invocation,
                    elapsed_ms,
                }),
                Err(error) => event matches ShellMenuEvent::Error {
                    session_id: s,
                    request_id: r,
                    operation,
                    message,
                    elapsed_ms: e,
                } && s == session_id && r == request_id && operation@ == "invoke"@ && message
                    == error.message && e == elapsed_ms,
            },
    {
        match result {
            Ok(invocation) => ShellMenuEvent::Invoked {
                session_id,
                request_id,
                invocation,
                elapsed_ms,
            },
            Err(error) => ShellMenuEvent::Error {
                session_id,
                request_id,
                operation: "invoke",
                message: error.message,
                elapsed_ms,
            },
        }
    }
}

/// What a caller is told when a command was handed to the worker, or could not be.
pub fn send(delivered: bool) -> (result: Result<(), IoError>)
    ensures
        result is Ok <==> delivered,
        result matches Err(error) ==> errors::fails_with(
            error,
            ErrorKind::BrokenPipe,
            "shell menu worker stopped"@,
        ),
{
    if delivered {
        Ok(())
    } else {
        Err(IoError::new(ErrorKind::BrokenPipe, "shell menu worker stopped"))
    }
}

/// A command about a menu that is not open never reaches the menu that is.
pub proof fn law_only_the_open_menu_is_served(
    worker: MenuWorker,
    command: ShellMenuCommand,
    action: WorkerAction,
)
    requires
        is_action(worker, command, action),
        match command {
            ShellMenuCommand::Load { .. } => false,
            ShellMenuCommand::LoadSubmenu { session_id, request_id, .. } => !is_open(
                worker,
                session_id,
                request_id,
            ),
            ShellMenuCommand::Invoke { session_id, request_id, .. } => !is_open(
                worker,
                session_id,
                request_id,
            ),
            ShellMenuCommand::Close { session_id, request_id } => !is_open(
                worker,
                session_id,
                request_id,
            ),
        },
    ensures
        is_refusal(action) || (action matches WorkerAction::Answer { release, .. } && !release),
        after_command(worker, command) == worker,
{
}

/// Once a menu is closed, commands about it are refused.
pub proof fn law_closed_menus_stay_closed(worker: MenuWorker, session_id: u64, request_id: u64)
    requires
        is_open(worker, session_id, request_id),
    ensures
        !is_open(
            after_command(worker, ShellMenuCommand::Close { session_id, request_id }),
            session_id,
            request_id,
        ),
{
}

/// A menu that was read is open from then on, and only that one: a submenu of it is read and an item of
/// it carried out, while commands about any other are refused. A menu that could not be read leaves the
/// one that is open.
pub proof fn law_a_loaded_menu_is_served(
    worker: &mut MenuWorker,
    next: &mut MenuWorker,
    session_id: ShellMenuSessionId,
    request_id: ShellMenuRequestId,
    result: Result<Vec<ClassicMenuItem>, IoError>,
    elapsed_ms: u128,
    event: ShellMenuEvent,
    command: ShellMenuCommand,
    action: WorkerAction,
)
    requires
        call_ensures(
            MenuWorker::loaded,
            (worker, session_id, request_id, result, elapsed_ms),
            event,
        ),
        *old(next) == *final(worker),
        call_ensures(MenuWorker::receive, (next, command), action),
    ensures
        result is Ok ==> final(worker).session == Some((session_id, request_id)) && event == (
        ShellMenuEvent::Loaded { session_id, request_id, items: result->Ok_0, elapsed_ms }),
        result is Err ==> final(worker).session == old(worker).session && event is Error,
        command matches ShellMenuCommand::Invoke {
            session_id: s,
            request_id: r,
            command_id,
            owner_window,
            screen_x,
            screen_y,
        } ==> if final(worker).session == Some((s, r)) {
            action == (WorkerAction::Invoke { command_id, owner_window, screen_x, screen_y })
        } else {
            action is Refuse
        },
        command matches ShellMenuCommand::LoadSubmenu { session_id: s, request_id: r, token, .. }
            ==> if final(worker).session == Some((s, r)) {
            action == (WorkerAction::ReadSubmenu { token })
        } else {
            action is Refuse
        },
        command matches ShellMenuCommand::Close { session_id: s, request_id: r } ==> {
            &&& action is Answer
            &&& action->event == (ShellMenuEvent::Closed { session_id: s, request_id: r })
            &&& action->release <==> final(worker).session == Some((s, r))
            &&& action->release ==> final(next).session is None
            &&& !action->release ==> final(next).session == final(worker).session
        },
        command matches ShellMenuCommand::Load {
            target,
            include_extended_verbs,
            owner_window,
            ..
        } ==> action == (WorkerAction::Open { target, include_extended_verbs, owner_window }),
        !(command is Close) ==> final(next).session == final(worker).session,
{
}

/// The answer to a command about a submenu or an item bears the numbers of that command, and brings
/// what was read or why it was not.
pub proof fn law_answers_bear_their_numbers(
    worker: MenuWorker,
    session_id: ShellMenuSessionId,
    request_id: ShellMenuRequestId,
    submenu_request_id: ShellMenuRequestId,
    token: ShellMenuSubmenuToken,
    read: Result<Vec<ClassicMenuItem>, IoError>,
    done: Result<ClassicMenuInvocation, IoError>,
    elapsed_ms: u128,
    submenu: ShellMenuEvent,
    invoked: ShellMenuEvent,
)
    requires
        call_ensures(
            MenuWorker::submenu_loaded,
            (&worker, session_id, request_id, submenu_request_id, token, read, elapsed_ms),
            submenu,
        ),
        call_ensures(
            MenuWorker::invoked,
            (&worker, session_id, request_id, done, elapsed_ms),
            invoked,
        ),
    ensures
        submenu is SubmenuLoaded <==> read is Ok,
        submenu is SubmenuError <==> read is Err,
        read is Ok ==> submenu == (ShellMenuEvent::SubmenuLoaded {
            session_id,
            request_id,
            submenu_request_id,
            token,
            items: read->Ok_0,
            elapsed_ms,
        }),
        read is Err ==> submenu == (ShellMenuEvent::SubmenuError {
            session_id,
            request_id,
            submenu_request_id,
            token,
            message: read->Err_0.message,
            elapsed_ms,
        }),
        invoked is Invoked <==> done is Ok,
        done is Ok ==> invoked == (ShellMenuEvent::Invoked {
            session_id,
            request_id,
            invocation: done->Ok_0,
            elapsed_ms,
        }),
        done is Err ==> invoked is Error && invoked->Error_session_id == session_id
            && invoked->Error_request_id == request_id && invoked->Error_message
            == done->Err_0.message,
{
}

} // verus!
