//! Windows registered as drop targets on one thread.
use std::collections::HashMap;
use vstd::prelude::*;

use crate::errors;
use crate::errors::{ErrorKind, IoError};

verus! {

broadcast use vstd::std_specs::hash::group_hash_axioms;

/// What to do about the registration of a window.
#[derive(Debug, Clone, Copy, PartialEq, Eq, Structural)]
pub enum RegistrationAction {
    WaitForWindow,
    Keep,
    Replace,
}

/// What to do when a window with the handle `observed_hwnd` is seen; zero while it has none.
pub fn registration_action(registered_hwnd: i64, observed_hwnd: i64) -> (action: RegistrationAction)
    ensures
        action == if observed_hwnd == 0 {
            RegistrationAction::WaitForWindow
        } else if registered_hwnd == observed_hwnd {
            RegistrationAction::Keep
        } else {
            RegistrationAction::Replace
        },
{
    if observed_hwnd == 0 {
        RegistrationAction::WaitForWindow
    } else if registered_hwnd == observed_hwnd {
        RegistrationAction::Keep
    } else {
        RegistrationAction::Replace
    }
}

/// A registration that has to be taken back by a call of its own. Whether taking it back works is
/// up to the system.
pub trait ExplicitRevoke {
    fn revoke(&mut self) -> bool;
}

/// The registrations of one thread, by window.
pub struct RegistrationStore<R> {
    registrations: HashMap<i64, R>,
    shutdown: bool,
}

impl<R> View for RegistrationStore<R> {
    type V = Map<i64, R>;

    closed spec fn view(&self) -> Map<i64, R> {
        self.registrations@
    }
}

impl<R> Default for RegistrationStore<R> {
    fn default() -> (store: Self)
        ensures
            store@ == Map::<i64, R>::empty(),
            !store.closing(),
    {
        Self::new()
    }
}

impl<R> RegistrationStore<R> {
    /// No window is registered any more.
    pub closed spec fn closing(self) -> bool {
        self.shutdown
    }

    pub fn new() -> (store: Self)
        ensures
            store@ == Map::<i64, R>::empty(),
            !store.closing(),
    {
        RegistrationStore { registrations: HashMap::new(), shutdown: false }
    }

    pub fn contains(&self, hwnd: i64) -> (found: bool)
        ensures
            found == self@.contains_key(hwnd),
    {
        self.registrations.contains_key(&hwnd)
    }

    /// Registers a window that is not registered, before the shutdown.
    pub fn insert(&mut self, hwnd: i64, registration: R)
        requires
            !old(self).closing(),
            !old(self)@.contains_key(hwnd),
        ensures
            final(self)@ == old(self)@.insert(hwnd, registration),
            !final(self).closing(),
    {
        self.registrations.insert(hwnd, registration);
    }

    pub fn is_shutdown(&self) -> (closing: bool)
        ensures
            closing == self.closing(),
    {
        self.shutdown
    }

    pub fn is_empty(&self) -> (empty: bool)
        ensures
            empty == (self@.len() == 0),
    {
        self.registrations.is_empty()
    }

    pub fn len(&self) -> (count: usize)
        ensures
            count == self@.len(),
    {
        self.registrations.len()
    }

    /// Takes a registration out, so that it can be taken back once and no more.
    pub fn take(&mut self, hwnd: i64) -> (registration: Option<R>)
        ensures
            registration == if old(self)@.contains_key(hwnd) {
                Some(old(self)@[hwnd])
            } else {
                None
            },
            final(self)@ == old(self)@.remove(hwnd),
            final(self).closing() == old(self).closing(),
    {
        let registration = self.registrations.remove(&hwnd);
        assert(self@ =~= old(self)@.remove(hwnd));
        registration
    }

    /// The windows that are registered, in any order.
    fn windows(&self) -> (handles: Vec<i64>)
        ensures
            handles@.to_set() == self@.dom(),
    {
        let mut handles: Vec<i64> = Vec::new();
        for hwnd in it: self.registrations.keys()
            invariant
                it.seq().unref().to_set() == self@.dom(),
                handles@ == it.seq().unref().take(it.index() as int),
                it.index() == it.seq().len() ==> handles@ == it.seq().unref(),
        {
            handles.push(*hwnd);
        }
        handles
    }
}

/// The answer is one that the registration itself gives when it is taken back.
pub open spec fn answers<R: ExplicitRevoke>(registration: R, answer: bool) -> bool {
    exists|r: &mut R| *r == registration && #[trigger] call_ensures(R::revoke, (r,), answer)
}

/// The registration was taken back, whatever it answered.
pub open spec fn was_revoked<R: ExplicitRevoke>(registration: R) -> bool {
    exists|answer: bool| answers(registration, answer)
}

impl<R: ExplicitRevoke> RegistrationStore<R> {
    /// Takes the registration of a window back. It is gone afterwards, whether that worked or not;
    /// false for a window that is not registered.
    pub fn revoke(&mut self, hwnd: i64) -> (revoked: bool)
        ensures
            final(self)@ == old(self)@.remove(hwnd),
            final(self).closing() == old(self).closing(),
            if old(self)@.contains_key(hwnd) {
                answers(old(self)@[hwnd], revoked)
            } else {
                !revoked
            },
    {
        match self.take(hwnd) {
            Some(registration) => {
                let mut registration = registration;
                registration.revoke()
            },
            None => false,
        }
    }

    /// Takes every registration back; none is left.
    pub fn revoke_all(&mut self)
        ensures
            forall|hwnd: i64|
                old(self)@.contains_key(hwnd) ==> was_revoked(#[trigger] old(self)@[hwnd]),
            final(self)@ == Map::<i64, R>::empty(),
            final(self).closing() == old(self).closing(),
    {
        let handles = self.windows();
        let mut i: usize = 0;
        while i < handles.len()
            invariant
                i <= handles@.len(),
                handles@.to_set() == old(self)@.dom(),
                self.closing() == old(self).closing(),
                forall|hwnd: i64| #[trigger]
                    self@.contains_key(hwnd) ==> old(self)@.contains_key(hwnd) && self@[hwnd]
                        == old(self)@[hwnd],
                forall|hwnd: i64|
                    old(self)@.contains_key(hwnd) ==> was_revoked(#[trigger] old(self)@[hwnd]) || (
                    self@.contains_key(hwnd) && self@[hwnd] == old(self)@[hwnd]),
                forall|j: int| 0 <= j < i ==> !self@.contains_key(#[trigger] handles@[j]),
            decreases handles@.len() - i,
        {
            let _ = self.revoke(handles[i]);
            i += 1;
        }
        assert forall|hwnd: i64| !self@.contains_key(hwnd) by {
            if self@.contains_key(hwnd) {
                assert(handles@.to_set().contains(hwnd));
                let j = choose|j: int| 0 <= j < handles@.len() && handles@[j] == hwnd;
                assert(!self@.contains_key(handles@[j]));
            }
        }
        assert(self@ =~= Map::<i64, R>::empty());
    }

    /// Takes every registration back and lets no new one in.
    pub fn begin_shutdown(&mut self)
        ensures
            forall|hwnd: i64|
                old(self)@.contains_key(hwnd) ==> was_revoked(#[trigger] old(self)@[hwnd]),
            final(self).closing(),
            final(self)@ == Map::<i64, R>::empty(),
    {
        self.shutdown = true;
        assert(self@ == old(self)@);
        self.revoke_all();
    }
}

/// What a thread needs before it registers a window.
#[derive(Debug, Clone, Copy, PartialEq, Eq, Structural)]
pub enum ApartmentNeed {
    Ready,
    Initialize,
}

/// Whether a thread may register windows, and whether it has to be set up first.
pub fn ensure_apartment(closing: bool, initialized: bool) -> (need: Result<ApartmentNeed, IoError>)
    ensures
        match need {
            Ok(need) => !closing && need == if initialized {
                ApartmentNeed::Ready
            } else {
                ApartmentNeed::Initialize
            },
            Err(error) => closing && errors::fails_with(
                error,
                ErrorKind::Other,
                "drag-drop apartment is shutting down"@,
            ),
        },
{
    if closing {
        return Err(IoError::new(ErrorKind::Other, "drag-drop apartment is shutting down"));
    }
    if initialized {
        Ok(ApartmentNeed::Ready)
    } else {
        Ok(ApartmentNeed::Initialize)
    }
}

/// A window is registered anew exactly where it is another than the one that is registered; nothing
/// happens before there is a window, and nothing more once the apartment shuts down.
pub proof fn law_a_new_window_is_registered(
    registered: i64,
    observed: i64,
    action: RegistrationAction,
    closing: bool,
    initialized: bool,
    need: Result<ApartmentNeed, IoError>,
)
    requires
        call_ensures(registration_action, (registered, observed), action),
        call_ensures(ensure_apartment, (closing, initialized), need),
    ensures
        action is WaitForWindow <==> observed == 0,
        action is Keep <==> observed != 0 && registered == observed,
        action is Replace <==> observed != 0 && registered != observed,
        need is Err <==> closing,
        need is Ok ==> (need->Ok_0 is Ready <==> initialized) && (need->Ok_0 is Initialize
            <==> !initialized),
{
}

/// A registration is found under its window and taken out once; the others stay.
pub proof fn law_a_registration_is_taken_once<R>(
    first: &mut RegistrationStore<R>,
    second: &mut RegistrationStore<R>,
    third: &mut RegistrationStore<R>,
    hwnd: i64,
    other: i64,
    registration: R,
    found: bool,
    taken: Option<R>,
    again: Option<R>,
)
    requires
        !old(first).closing(),
        !old(first)@.contains_key(hwnd),
        other != hwnd,
        call_ensures(RegistrationStore::<R>::insert, (first, hwnd, registration), ()),
        call_ensures(RegistrationStore::<R>::contains, (&*final(first), hwnd), found),
        *old(second) == *final(first),
        call_ensures(RegistrationStore::<R>::take, (second, hwnd), taken),
        *old(third) == *final(second),
        call_ensures(RegistrationStore::<R>::take, (third, hwnd), again),
    ensures
        found,
        taken == Some(registration),
        again is None,
        final(third)@.contains_key(other) <==> old(first)@.contains_key(other),
        old(first)@.contains_key(other) ==> final(third)@[other] == old(first)@[other],
{
}

} // verus!
