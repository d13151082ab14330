//! Files dragged out of the window: what is offered, and what came of it.
use vstd::prelude::*;

use crate::bytes;
use crate::bytes::push_u32;
use crate::errors;
use crate::errors::{ErrorKind, IoError};
use crate::windows::data_format;
use crate::windows::data_format::{
    encode_dropfiles, format_etc, format_matches, supports_format, DataFormat, CF_HDROP,
};
use crate::windows::drag_drop::effects;
use crate::windows::drag_drop::effects::{DropEffect, MK_LBUTTON, MK_RBUTTON};
use crate::winpath;

verus! {

/// The drag goes on.
pub const DRAG_CONTINUES: i32 = 0;

/// The drag ends in a drop.
pub const DRAGDROP_S_DROP: i32 = 0x40100;

/// The drag is cancelled.
pub const DRAGDROP_S_CANCEL: i32 = 0x40101;

/// The system shows its own cursors.
pub const DRAGDROP_S_USEDEFAULTCURSORS: i32 = 0x40102;

#[derive(Debug, Clone, Copy, PartialEq, Eq, Structural)]
pub struct OutboundDropResult {
    pub effect: DropEffect,
    pub dropped: bool,
    pub performed_effect_reported: bool,
}

/// The formats that are offered: the list of files and the preferred effect.
pub fn outbound_formats(
    paths: &[Vec<u16>],
    preferred_effect: DropEffect,
    preferred_format: u16,
) -> (formats: Result<Vec<(u16, Vec<u8>)>, IoError>)
    ensures
        ({
            let views = winpath::path_views(paths@);
            match formats {
                Ok(formats) => {
                    &&& paths@.len() > 0
                    &&& preferred_effect != DropEffect::Nothing
                    &&& data_format::all_listable(views)
                    &&& formats@.len() == 2
                    &&& formats@[0].0 == CF_HDROP
                    &&& formats@[0].1@ == data_format::file_list(views)
                    &&& formats@[1].0 == preferred_format
                    &&& formats@[1].1@ == bytes::bytes32(effects::native_effect(preferred_effect))
                },
                Err(error) => if paths@.len() == 0 {
                    errors::fails_with(
                        error,
                        ErrorKind::InvalidInput,
                        "outbound drag file list is empty"@,
                    )
                } else if preferred_effect == DropEffect::Nothing {
                    errors::fails_with(
                        error,
                        ErrorKind::InvalidInput,
                        "outbound drag preferred effect is unavailable"@,
                    )
                } else {
                    !data_format::all_listable(views) && errors::fails_with(
                        error,
                        ErrorKind::InvalidInput,
                        "invalid outbound drag path"@,
                    )
                },
            }
        }),
{
    if paths.len() == 0 {
        return Err(IoError::new(ErrorKind::InvalidInput, "outbound drag file list is empty"));
    }
    if preferred_effect == DropEffect::Nothing {
        return Err(
            IoError::new(
                ErrorKind::InvalidInput,
                "outbound drag preferred effect is unavailable",
            ),
        );
    }
    match encode_dropfiles(paths, "invalid outbound drag path") {
        Err(error) => Err(error),
        Ok(list) => {
            let mut effect: Vec<u8> = Vec::new();
            push_u32(&mut effect, preferred_effect.native());
            assert(effect@ =~= bytes::bytes32(effects::native_effect(preferred_effect)));
            let mut formats: Vec<(u16, Vec<u8>)> = Vec::new();
            formats.push((CF_HDROP, list));
            formats.push((preferred_format, effect));
            Ok(formats)
        },
    }
}

/// A dragged file must have a place in the Shell: a parent, left over when its own name is taken
/// off a copy of its place.
pub fn shell_parent(copied: bool, name_removed: bool) -> (result: Result<(), IoError>)
    ensures
        result is Ok <==> copied && name_removed,
        result matches Err(error) ==> errors::fails_with(
            error,
            ErrorKind::Other,
            "unable to resolve outbound Shell parent"@,
        ),
{
    if copied && name_removed {
        Ok(())
    } else {
        Err(IoError::new(ErrorKind::Other, "unable to resolve outbound Shell parent"))
    }
}

/// How dragged files are named to the Shell.
#[derive(Debug, Clone, Copy, PartialEq, Eq, Structural)]
pub enum ShellParent {
    /// By their names in the parent of the first, which is that of all.
    OfTheFirst,
    /// By their whole places, from the desktop on.
    Desktop,
}

/// Given whether the parent of each file is that of the first.
pub fn shell_data_object(same_parent: &[bool]) -> (parent: ShellParent)
    ensures
        parent == if same_parent@.len() > 0 && forall|i: int|
            0 <= i < same_parent@.len() ==> #[trigger] same_parent@[i] {
            ShellParent::OfTheFirst
        } else {
            ShellParent::Desktop
        },
{
    let n: usize = same_parent.len();
    let mut i: usize = 0;
    while i < n
        invariant
            n == same_parent@.len(),
            i <= n,
            forall|j: int| 0 <= j < i ==> #[trigger] same_parent@[j],
        decreases n - i,
    {
        if !same_parent[i] {
            return ShellParent::Desktop;
        }
        i += 1;
    }
    if n > 0 {
        ShellParent::OfTheFirst
    } else {
        ShellParent::Desktop
    }
}

/// What a drag came to: the effect that the target has reported counts before the one that the
/// system returned, and neither counts when nothing was dropped.
pub fn outbound_result(dropped: bool, reported: Option<DropEffect>, native: u32) -> (result:
    OutboundDropResult)
    ensures
        result == (OutboundDropResult {
            effect: if !dropped {
                DropEffect::Nothing
            } else {
                match reported {
                    Some(effect) => effect,
                    None => effects::effect_of_native(native),
                }
            },
            dropped,
            performed_effect_reported: reported is Some,
        }),
{
    OutboundDropResult {
        effect: if dropped {
            match reported {
                Some(effect) => effect,
                None => DropEffect::from_native(native),
            }
        } else {
            DropEffect::Nothing
        },
        dropped,
        performed_effect_reported: reported.is_some(),
    }
}

/// Whether a drag goes on: Escape cancels it, letting go of both buttons drops.
pub fn query_continue_drag(escape_pressed: bool, key_state: u32) -> (answer: i32)
    ensures
        answer == if escape_pressed {
            DRAGDROP_S_CANCEL
        } else if !effects::has_bits(key_state, MK_LBUTTON) && !effects::has_bits(
            key_state,
            MK_RBUTTON,
        ) {
            DRAGDROP_S_DROP
        } else {
            DRAG_CONTINUES
        },
{
    assert((key_state & 3 == 0) == (key_state & 1 == 0 && key_state & 2 == 0)) by (bit_vector);
    assert(1u32 | 2u32 == 3u32) by (bit_vector);
    if escape_pressed {
        DRAGDROP_S_CANCEL
    } else if key_state & (MK_LBUTTON | MK_RBUTTON) == 0 {
        DRAGDROP_S_DROP
    } else {
        DRAG_CONTINUES
    }
}

#[derive(Debug, Clone, Copy, PartialEq, Eq, Structural)]
pub enum DragCursorFeedback {
    System,
    Arrow,
}

/// The answer to a request for feedback, given whether the arrow cursor could be shown.
pub fn drag_feedback_result(feedback: DragCursorFeedback, arrow_shown: bool) -> (answer: i32)
    ensures
        answer == if feedback == DragCursorFeedback::Arrow && arrow_shown {
            DRAG_CONTINUES
        } else {
            DRAGDROP_S_USEDEFAULTCURSORS
        },
{
    match feedback {
        DragCursorFeedback::System => DRAGDROP_S_USEDEFAULTCURSORS,
        DragCursorFeedback::Arrow => if arrow_shown {
            DRAG_CONTINUES
        } else {
            DRAGDROP_S_USEDEFAULTCURSORS
        },
    }
}

/// The formats of a data object: fixed ones with their bytes, and ones that were added to it, whose
/// data is kept by their position.
#[derive(Debug)]
pub struct OutboundFormats {
    pub fixed: Vec<(u16, Vec<u8>)>,
    pub added: Vec<DataFormat>,
    pub performed_format: u16,
    pub performed_effect: Option<DropEffect>,
    pub accept_extra_set_data: bool,
}

/// Where the data for a request is.
#[derive(Debug, Clone, Copy, PartialEq, Eq, Structural)]
pub enum DataSource {
    Fixed(usize),
    Added(usize),
    Unsupported,
}

/// What setting data comes to.
#[derive(Debug, Clone, Copy, PartialEq, Eq, Structural)]
pub enum SetDataAction {
    /// The data object takes no such data.
    Refused,
    /// The data tells which effect was performed.
    ReportsEffect,
    /// The data takes the place of earlier data at this position.
    Replaces(usize),
    /// The data is added at the end.
    Appends,
}

/// The first position from one on whose fixed format serves the request, or the number of them.
pub open spec fn fixed_index(fixed: Seq<(u16, Vec<u8>)>, request: DataFormat, from: int) -> int
    decreases fixed.len() - from,
{
    if from >= fixed.len() || data_format::is_supported(request, fixed[from].0) {
        from
    } else {
        fixed_index(fixed, request, from + 1)
    }
}

/// The first position from one on whose added format matches the request, or the number of them.
pub open spec fn added_index(added: Seq<DataFormat>, request: DataFormat, from: int) -> int
    decreases added.len() - from,
{
    if from >= added.len() || data_format::is_match(request, added[from]) {
        from
    } else {
        added_index(added, request, from + 1)
    }
}

impl OutboundFormats {
    pub open spec fn source_of(self, request: DataFormat) -> DataSource {
        let fixed = fixed_index(self.fixed@, request, 0);
        let added = added_index(self.added@, request, 0);
        if fixed < self.fixed@.len() {
            DataSource::Fixed(fixed as usize)
        } else if added < self.added@.len() {
            DataSource::Added(added as usize)
        } else {
            DataSource::Unsupported
        }
    }

    /// The formats that are offered: all of the content of each fixed one, then the added ones.
    pub open spec fn offers(self) -> Seq<DataFormat> {
        self.fixed@.map_values(|fixed: (u16, Vec<u8>)| data_format::whole_content(fixed.0))
            + self.added@
    }

    pub fn offered_formats(&self) -> (offered: Vec<DataFormat>)
        ensures
            offered@ == self.offers(),
    {
        let mut offered: Vec<DataFormat> = Vec::new();
        let mut at: usize = 0;
        while at < self.fixed.len()
            invariant
                at <= self.fixed@.len(),
                offered@ == self.offers().subrange(0, at as int),
            decreases self.fixed@.len() - at,
        {
            offered.push(format_etc(self.fixed[at].0));
            assert(offered@ =~= self.offers().subrange(0, at + 1));
            at += 1;
        }
        at = 0;
        while at < self.added.len()
            invariant
                at <= self.added@.len(),
                offered@ == self.offers().subrange(0, self.fixed@.len() + at),
            decreases self.added@.len() - at,
        {
            offered.push(self.added[at]);
            assert(offered@ =~= self.offers().subrange(0, self.fixed@.len() + at + 1));
            at += 1;
        }
        assert(offered@ =~= self.offers());
        offered
    }

    fn find_added(&self, request: &DataFormat) -> (at: usize)
        ensures
            at == added_index(self.added@, *request, 0),
            at <= self.added@.len(),
    {
        let mut at: usize = 0;
        while at < self.added.len() && !format_matches(request, &self.added[at])
            invariant
                at <= self.added@.len(),
                added_index(self.added@, *request, 0) == added_index(
                    self.added@,
                    *request,
                    at as int,
                ),
            decreases self.added@.len() - at,
        {
            at += 1;
        }
        at
    }

    /// Where the data for a request is: among the fixed formats first.
    pub fn find_data(&self, request: &DataFormat) -> (source: DataSource)
        ensures
            source == self.source_of(*request),
    {
        let mut at: usize = 0;
        while at < self.fixed.len() && !supports_format(request, self.fixed[at].0)
            invariant
                at <= self.fixed@.len(),
                fixed_index(self.fixed@, *request, 0) == fixed_index(
                    self.fixed@,
                    *request,
                    at as int,
                ),
            decreases self.fixed@.len() - at,
        {
            at += 1;
        }
        if at < self.fixed.len() {
            return DataSource::Fixed(at);
        }
        let added: usize = self.find_added(request);
        if added < self.added.len() {
            DataSource::Added(added)
        } else {
            DataSource::Unsupported
        }
    }

    /// Takes note of data that is set; the effect that it reports, if it does, is in `native`.
    pub fn set_data(&mut self, request: DataFormat, native: u32) -> (action: SetDataAction)
        ensures
            ({
                let at = added_index(old(self).added@, request, 0);
                action == if data_format::is_supported(request, old(self).performed_format) {
                    SetDataAction::ReportsEffect
                } else if !old(self).accept_extra_set_data {
                    SetDataAction::Refused
                } else if at < old(self).added@.len() {
                    SetDataAction::Replaces(at as usize)
                } else {
                    SetDataAction::Appends
                }
            }),
            final(self).performed_effect == if action == SetDataAction::ReportsEffect {
                Some(effects::effect_of_native(native))
            } else {
                old(self).performed_effect
            },
            final(self).added@ == if action == SetDataAction::Appends {
                old(self).added@.push(request)
            } else {
                old(self).added@
            },
            final(self).fixed == old(self).fixed,
            final(self).performed_format == old(self).performed_format,
            final(self).accept_extra_set_data == old(self).accept_extra_set_data,
    {
        if supports_format(&request, self.performed_format) {
            self.performed_effect = Some(DropEffect::from_native(native));
            return SetDataAction::ReportsEffect;
        }
        if !self.accept_extra_set_data {
            return SetDataAction::Refused;
        }
        let at: usize = self.find_added(&request);
        if at < self.added.len() {
            SetDataAction::Replaces(at)
        } else {
            self.added.push(request);
            SetDataAction::Appends
        }
    }
}

proof fn lemma_a_fixed_format_is_found(
    fixed: Seq<(u16, Vec<u8>)>,
    request: DataFormat,
    from: int,
    at: int,
)
    requires
        from <= at < fixed.len(),
        data_format::is_supported(request, fixed[at].0),
    ensures
        fixed_index(fixed, request, from) <= at,
    decreases at - from,
{
    if from < at && !data_format::is_supported(request, fixed[from].0) {
        lemma_a_fixed_format_is_found(fixed, request, from + 1, at);
    }
}

proof fn lemma_an_added_format_is_found(
    added: Seq<DataFormat>,
    request: DataFormat,
    from: int,
    at: int,
)
    requires
        from <= at < added.len(),
        data_format::is_match(request, added[at]),
    ensures
        added_index(added, request, from) <= at,
    decreases at - from,
{
    if from < at && !data_format::is_match(request, added[from]) {
        lemma_an_added_format_is_found(added, request, from + 1, at);
    }
}

/// A data object has data for each format that it offers by some means.
pub proof fn law_offered_formats_are_served(formats: OutboundFormats, at: int)
    requires
        0 <= at < formats.offers().len(),
        formats.offers()[at].medium != 0,
    ensures
        formats.source_of(formats.offers()[at]) != DataSource::Unsupported,
{
    let request = formats.offers()[at];
    let medium = request.medium;
    assert(medium & medium == medium) by (bit_vector);
    assert(1u32 & 1u32 == 1u32) by (bit_vector);
    if at < formats.fixed@.len() {
        lemma_a_fixed_format_is_found(formats.fixed@, request, 0, at);
    } else {
        lemma_an_added_format_is_found(formats.added@, request, 0, at - formats.fixed@.len());
    }
}

/// What is dragged out offers every file, in its order, and the effect that is preferred; nothing is
/// offered without files or without an effect.
pub proof fn law_dragged_files_are_offered(
    paths: &[Vec<u16>],
    preferred: DropEffect,
    preferred_format: u16,
    formats: Result<Vec<(u16, Vec<u8>)>, IoError>,
)
    requires
        call_ensures(outbound_formats, (paths, preferred, preferred_format), formats),
    ensures
        formats is Ok <==> paths@.len() > 0 && preferred != DropEffect::Nothing && forall|i: int|
            0 <= i < paths@.len() ==> (#[trigger] paths@[i])@.len() > 0 && !paths@[i]@.contains(0),
        formats is Ok ==> {
            let list = formats->Ok_0@[0].1@;
            let effect = bytes::le32(formats->Ok_0@[1].1@, 0);
            &&& formats->Ok_0@.len() == 2
            &&& formats->Ok_0@[0].0 == 15 && formats->Ok_0@[1].0 == preferred_format
            &&& list.len() >= 20
            &&& data_format::listed_paths(bytes::units_in(list.subrange(20, list.len() as int)))
                == winpath::path_views(paths@)
            &&& effect == 1 <==> preferred == DropEffect::Copy
            &&& effect == 2 <==> preferred == DropEffect::Move
            &&& effect == 4 <==> preferred == DropEffect::Link
        },
{
    let views = winpath::path_views(paths@);
    assert(views.len() == paths@.len());
    assert forall|i: int| 0 <= i < paths@.len() implies #[trigger] views[i] == paths@[i]@ by {}
    if formats is Ok {
        assert forall|i: int| 0 <= i < paths@.len() implies (#[trigger] paths@[i])@.len() > 0
            && !paths@[i]@.contains(0) by {
            assert(data_format::is_listable(views[i]));
        }
        let all = formats->Ok_0@[0].1@;
        let names = data_format::name_list(views).push(0);
        assert(data_format::list_header().len() == 20);
        assert(all.subrange(20, all.len() as int) =~= bytes::unit_bytes(names));
        bytes::law_units_round_trip(names);
        data_format::law_file_list_preserves_paths(views);
        let none = Seq::<u8>::empty();
        let b = formats->Ok_0@[1].1@;
        assert(none + bytes::bytes32(effects::native_effect(preferred)) + none =~= b);
        bytes::lemma_le32(none, effects::native_effect(preferred), none);
    } else if paths@.len() > 0 && preferred != DropEffect::Nothing {
        let i = choose|i: int|
            0 <= i < views.len() && !data_format::is_listable(#[trigger] views[i]);
        assert(!((paths@[i])@.len() > 0 && !paths@[i]@.contains(0)));
    }
}

/// A drag that was not dropped has done nothing; one that was has done what the target reports, or what
/// the system says where the target reports nothing.
pub proof fn law_a_drag_without_a_drop_does_nothing(
    dropped: bool,
    reported: Option<DropEffect>,
    native: u32,
    result: OutboundDropResult,
)
    requires
        call_ensures(outbound_result, (dropped, reported, native), result),
    ensures
        !dropped ==> result.effect == DropEffect::Nothing,
        dropped && reported is Some ==> result.effect == reported->0,
        dropped && reported is None ==> {
            &&& result.effect == DropEffect::Move <==> native & 2 != 0
            &&& result.effect == DropEffect::Copy <==> native & 2 == 0 && native & 1 != 0
            &&& result.effect == DropEffect::Link <==> native & 2 == 0 && native & 1 == 0 && native
                & 4 != 0
        },
        result.dropped == dropped,
        result.performed_effect_reported <==> reported is Some,
{
}

/// A drag goes on while a button is held, ends in a drop once none is, and is given up on Escape.
pub proof fn law_releasing_the_button_drops(escape_pressed: bool, key_state: u32, answer: i32)
    requires
        call_ensures(query_continue_drag, (escape_pressed, key_state), answer),
    ensures
        answer == 0x40101 <==> escape_pressed,
        answer == 0x40100 <==> !escape_pressed && key_state & 1 == 0 && key_state & 2 == 0,
        answer == 0 <==> !escape_pressed && (key_state & 1 != 0 || key_state & 2 != 0),
{
}

proof fn lemma_fixed_index(fixed: Seq<(u16, Vec<u8>)>, request: DataFormat, from: int)
    requires
        0 <= from <= fixed.len(),
    ensures
        from <= fixed_index(fixed, request, from) <= fixed.len(),
        fixed_index(fixed, request, from) < fixed.len() ==> data_format::is_supported(
            request,
            fixed[fixed_index(fixed, request, from)].0,
        ),
        forall|k: int|
            from <= k < fixed_index(fixed, request, from) ==> !data_format::is_supported(
                request,
                #[trigger] fixed[k].0,
            ),
    decreases fixed.len() - from,
{
    if from < fixed.len() && !data_format::is_supported(request, fixed[from].0) {
        lemma_fixed_index(fixed, request, from + 1);
    }
}

proof fn lemma_added_index(added: Seq<DataFormat>, request: DataFormat, from: int)
    requires
        0 <= from <= added.len(),
    ensures
        from <= added_index(added, request, from) <= added.len(),
        added_index(added, request, from) < added.len() ==> data_format::is_match(
            request,
            added[added_index(added, request, from)],
        ),
        forall|k: int|
            from <= k < added_index(added, request, from) ==> !data_format::is_match(
                request,
                #[trigger] added[k],
            ),
    decreases added.len() - from,
{
    if from < added.len() && !data_format::is_match(request, added[from]) {
        lemma_added_index(added, request, from + 1);
    }
}

/// Data that was set is found again by the same request; setting it once more takes its place, and
/// what is offered first keeps its data.
pub proof fn law_data_that_was_set_is_found(
    first: &mut OutboundFormats,
    second: &mut OutboundFormats,
    request: DataFormat,
    native: u32,
    action: SetDataAction,
    again: SetDataAction,
    source: DataSource,
    offered: Vec<DataFormat>,
)
    requires
        request.medium != 0,
        old(first).added@.len() < usize::MAX,
        old(first).fixed@.len() <= usize::MAX,
        call_ensures(OutboundFormats::set_data, (first, request, native), action),
        *old(second) == *final(first),
        call_ensures(OutboundFormats::set_data, (second, request, native), again),
        call_ensures(OutboundFormats::find_data, (&*final(first), &request), source),
        call_ensures(OutboundFormats::offered_formats, (&*final(first),), offered),
    ensures
        action is Appends || action is Replaces ==> !(source is Unsupported) && again is Replaces,
        action is Appends ==> final(first).added@ == old(first).added@.push(request) && offered@.last()
            == request && again == SetDataAction::Replaces(old(first).added@.len() as usize),
        !(action is Appends) ==> final(first).added@ == old(first).added@,
        offered@.len() == final(first).fixed@.len() + final(first).added@.len(),
        final(first).fixed == old(first).fixed,
        !old(first).accept_extra_set_data ==> action is Refused || action is ReportsEffect,
        action is ReportsEffect <==> request.format == old(first).performed_format && request.aspect
            == 1 && request.index == -1 && request.medium & 1 != 0,
        !(action is ReportsEffect) ==> final(first).performed_effect == old(first).performed_effect,
        action is ReportsEffect ==> final(first).performed_effect is Some,
        source matches DataSource::Fixed(at) ==> at < final(first).fixed@.len() && final(first).fixed@[at as int].0 == request.format,
{
    let added = old(first).added@;
    let medium = request.medium;
    assert(medium & medium == medium) by (bit_vector);
    lemma_added_index(added, request, 0);
    lemma_added_index(final(first).added@, request, 0);
    lemma_fixed_index(final(first).fixed@, request, 0);
    if action is Appends {
        let at = added_index(final(first).added@, request, 0);
        assert(final(first).added@[added.len() as int] == request);
        assert(data_format::is_match(request, request));
        if at < added.len() {
            assert(final(first).added@[at] == added[at]);
        }
        assert(at == added.len());
    }
}

} // verus!
