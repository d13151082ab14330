//! Windows paths as UTF-16 units: prefixes, components, parents, names and joining.
//!
//! A path is a prefix (`C:`, `\\server\share`, `\\?\...`), an optional root and a body of pieces
//! between separators. Empty pieces and `.` carry no meaning, except that `.` counts in a verbatim
//! path and at the start of a path that has neither prefix nor root.
use vstd::prelude::*;

use crate::wide::{push_units, units_copy, units_eq, BACKSLASH, COLON, DOT, QUESTION, SLASH};

verus! {

pub open spec fn is_sep(unit: u16) -> bool {
    unit == BACKSLASH || unit == SLASH
}

/// The units that end a piece: verbatim paths know only the backslash.
pub open spec fn splits(verbatim: bool, unit: u16) -> bool {
    unit == BACKSLASH || (!verbatim && unit == SLASH)
}

pub open spec fn is_letter(unit: u16) -> bool {
    (0x41 <= unit <= 0x5a) || (0x61 <= unit <= 0x7a)
}

pub open spec fn upper_letter(unit: u16) -> u16 {
    if 0x61 <= unit <= 0x7a {
        (unit - 0x20) as u16
    } else {
        unit
    }
}

/// Where the piece that starts at `from` ends: the next separator, or the end of the path.
pub open spec fn piece_end(s: Seq<u16>, from: int, verbatim: bool) -> int
    decreases s.len() - from,
{
    if from >= s.len() {
        s.len() as int
    } else if splits(verbatim, s[from]) {
        from
    } else {
        piece_end(s, from + 1, verbatim)
    }
}

/// Where the next piece starts when one ends at `end`.
pub open spec fn after_piece(s: Seq<u16>, end: int) -> int {
    if end < s.len() {
        end + 1
    } else {
        s.len() as int
    }
}

/// What a path starts with. Drive letters are kept as capitals.
pub enum Prefix {
    Verbatim(Seq<u16>),
    VerbatimUnc(Seq<u16>, Seq<u16>),
    VerbatimDisk(u16),
    Device(Seq<u16>),
    Unc(Seq<u16>, Seq<u16>),
    Disk(u16),
}

/// The `C:` at a position of the path.
pub open spec fn drive_at(s: Seq<u16>, at: int) -> bool {
    s.len() >= at + 2 && is_letter(s[at]) && s[at + 1] == COLON
}

/// Server and share after the separators that end at `at`, with the position behind them.
pub open spec fn server_share(s: Seq<u16>, at: int, verbatim: bool) -> (Seq<u16>, Seq<u16>, int) {
    let server_end = piece_end(s, at, verbatim);
    let share_start = after_piece(s, server_end);
    let share_end = piece_end(s, share_start, verbatim);
    let server = s.subrange(at, server_end);
    let share = s.subrange(share_start, share_end);
    (server, share, if share.len() > 0 {
        share_end
    } else {
        server_end
    })
}

/// The prefix of a path and its length in units.
pub open spec fn prefix_of(s: Seq<u16>) -> Option<(Prefix, int)> {
    if s.len() >= 2 && is_sep(s[0]) && is_sep(s[1]) {
        if s.len() >= 4 && s[0] == BACKSLASH && s[1] == BACKSLASH && s[2] == QUESTION && s[3]
            == BACKSLASH {
            if s.len() >= 8 && s[4] == 0x55 && s[5] == 0x4e && s[6] == 0x43 && is_sep(s[7]) {
                let (server, share, end) = server_share(s, 8, true);
                Some((Prefix::VerbatimUnc(server, share), end))
            } else if drive_at(s, 4) && (s.len() == 6 || is_sep(s[6])) {
                Some((Prefix::VerbatimDisk(upper_letter(s[4])), 6))
            } else {
                let end = piece_end(s, 4, true);
                Some((Prefix::Verbatim(s.subrange(4, end)), end))
            }
        } else if s.len() >= 4 && s[2] == DOT && is_sep(s[3]) {
            let end = piece_end(s, 4, false);
            Some((Prefix::Device(s.subrange(4, end)), end))
        } else {
            let (server, share, end) = server_share(s, 2, false);
            if server.len() > 0 && share.len() > 0 {
                Some((Prefix::Unc(server, share), end))
            } else {
                None
            }
        }
    } else if drive_at(s, 0) {
        Some((Prefix::Disk(upper_letter(s[0])), 2))
    } else {
        None
    }
}

pub open spec fn prefix_len(s: Seq<u16>) -> int {
    match prefix_of(s) {
        Some((_, len)) => len,
        None => 0,
    }
}

pub open spec fn is_verbatim(s: Seq<u16>) -> bool {
    match prefix_of(s) {
        Some((Prefix::Verbatim(_), _)) => true,
        Some((Prefix::VerbatimUnc(_, _), _)) => true,
        Some((Prefix::VerbatimDisk(_), _)) => true,
        _ => false,
    }
}

/// Every prefix but a drive letter stands for a root even with no separator behind it.
pub open spec fn implicit_root(s: Seq<u16>) -> bool {
    match prefix_of(s) {
        None => false,
        Some((Prefix::Disk(_), _)) => false,
        Some(_) => true,
    }
}

pub open spec fn physical_root(s: Seq<u16>) -> bool {
    prefix_len(s) < s.len() && is_sep(s[prefix_len(s)])
}

pub open spec fn has_root(s: Seq<u16>) -> bool {
    physical_root(s) || implicit_root(s)
}

/// The path starts with `.` where that is a component or is skipped before the body.
pub open spec fn leading_dot(s: Seq<u16>) -> bool {
    let at = prefix_len(s);
    &&& !has_root(s)
    &&& s.len() > at
    &&& s[at] == DOT
    &&& s.len() == at + 1 || splits(is_verbatim(s), s[at + 1])
}

pub open spec fn body_start(s: Seq<u16>) -> int {
    if physical_root(s) || leading_dot(s) {
        prefix_len(s) + 1
    } else {
        prefix_len(s)
    }
}

pub enum Component {
    Prefix(Prefix),
    RootDir,
    CurDir,
    ParentDir,
    Normal(Seq<u16>),
}

/// What one piece of the body stands for.
pub open spec fn piece_component(piece: Seq<u16>, verbatim: bool) -> Option<Component> {
    if piece.len() == 0 {
        None
    } else if piece.len() == 1 && piece[0] == DOT {
        if verbatim {
            Some(Component::CurDir)
        } else {
            None
        }
    } else if piece.len() == 2 && piece[0] == DOT && piece[1] == DOT {
        Some(Component::ParentDir)
    } else {
        Some(Component::Normal(piece))
    }
}

pub proof fn lemma_piece_end(s: Seq<u16>, from: int, verbatim: bool)
    requires
        0 <= from,
    ensures
        from <= s.len() ==> from <= piece_end(s, from, verbatim) <= s.len(),
        from > s.len() ==> piece_end(s, from, verbatim) == s.len(),
        piece_end(s, from, verbatim) < s.len() ==> splits(
            verbatim,
            s[piece_end(s, from, verbatim)],
        ),
    decreases s.len() - from,
{
    if from < s.len() && !splits(verbatim, s[from]) {
        lemma_piece_end(s, from + 1, verbatim);
    }
}

/// The components of the body from a position on.
pub open spec fn body_components(s: Seq<u16>, from: int, verbatim: bool) -> Seq<Component>
    decreases s.len() - from,
    when 0 <= from
{
    if from >= s.len() {
        Seq::empty()
    } else {
        proof {
            lemma_piece_end(s, from, verbatim);
        }
        let end = piece_end(s, from, verbatim);
        let rest = body_components(s, after_piece(s, end), verbatim);
        match piece_component(s.subrange(from, end), verbatim) {
            Some(component) => seq![component] + rest,
            None => rest,
        }
    }
}

pub open spec fn head_components(s: Seq<u16>) -> Seq<Component> {
    let prefix = match prefix_of(s) {
        Some((prefix, _)) => seq![Component::Prefix(prefix)],
        None => Seq::empty(),
    };
    if physical_root(s) || (implicit_root(s) && !is_verbatim(s)) {
        prefix.push(Component::RootDir)
    } else if prefix_of(s) is None && leading_dot(s) {
        prefix.push(Component::CurDir)
    } else {
        prefix
    }
}

/// The components of a path, the identity by which paths are compared.
pub open spec fn components(s: Seq<u16>) -> Seq<Component> {
    head_components(s) + body_components(s, body_start(s), is_verbatim(s))
}

/// Both paths have the same components.
pub open spec fn same_path(a: Seq<u16>, b: Seq<u16>) -> bool {
    components(a) == components(b)
}

/// The components of `base` stand at the start of those of `s`.
pub open spec fn path_starts_with(s: Seq<u16>, base: Seq<u16>) -> bool {
    components(base).is_prefix_of(components(s))
}

/// Where the last piece before `end` starts, in the body that starts at `start`.
pub open spec fn last_piece(s: Seq<u16>, start: int, end: int, verbatim: bool) -> int
    decreases end - start,
{
    if end <= start {
        start
    } else if splits(verbatim, s[end - 1]) {
        end
    } else {
        last_piece(s, start, end - 1, verbatim)
    }
}

pub open spec fn before_piece(start: int, piece: int) -> int {
    if piece > start {
        piece - 1
    } else {
        piece
    }
}

pub proof fn lemma_last_piece(s: Seq<u16>, start: int, end: int, verbatim: bool)
    requires
        0 <= start <= end <= s.len(),
    ensures
        start <= last_piece(s, start, end, verbatim) <= end,
        end > start ==> before_piece(start, last_piece(s, start, end, verbatim)) < end,
        before_piece(start, last_piece(s, start, end, verbatim)) >= start,
    decreases end - start,
{
    if end > start && !splits(verbatim, s[end - 1]) {
        lemma_last_piece(s, start, end - 1, verbatim);
    }
}

/// The end of the last piece that stands for a component, going back from `end`.
pub open spec fn meaningful_end(s: Seq<u16>, start: int, end: int, verbatim: bool) -> int
    decreases end - start,
    when 0 <= start <= end <= s.len()
{
    if end <= start {
        start
    } else {
        proof {
            lemma_last_piece(s, start, end, verbatim);
        }
        let piece = last_piece(s, start, end, verbatim);
        if piece_component(s.subrange(piece, end), verbatim) is Some {
            end
        } else {
            meaningful_end(s, start, before_piece(start, piece), verbatim)
        }
    }
}

pub open spec fn body_end(s: Seq<u16>) -> int {
    meaningful_end(s, body_start(s), s.len() as int, is_verbatim(s))
}

pub open spec fn last_start(s: Seq<u16>) -> int {
    last_piece(s, body_start(s), body_end(s), is_verbatim(s))
}

/// The path without its last component, unless that is a root or a prefix.
pub open spec fn path_parent(s: Seq<u16>) -> Option<Seq<u16>> {
    let start = body_start(s);
    if body_end(s) > start {
        let cut = before_piece(start, last_start(s));
        Some(s.subrange(0, meaningful_end(s, start, cut, is_verbatim(s))))
    } else if prefix_of(s) is None && leading_dot(s) {
        Some(Seq::empty())
    } else {
        None
    }
}

/// The last component, when it is a name.
pub open spec fn path_name(s: Seq<u16>) -> Option<Seq<u16>> {
    if body_end(s) > body_start(s) {
        let piece = s.subrange(last_start(s), body_end(s));
        match piece_component(piece, is_verbatim(s)) {
            Some(Component::Normal(name)) => Some(name),
            _ => None,
        }
    } else {
        None
    }
}

/// The position of the last dot of a name, or `-1`.
pub open spec fn last_dot(name: Seq<u16>) -> int
    decreases name.len(),
{
    if name.len() == 0 {
        -1
    } else if name.last() == DOT {
        name.len() - 1
    } else {
        last_dot(name.drop_last())
    }
}

/// A name before its last dot; all of it when there is none or only the leading one.
pub open spec fn name_stem(name: Seq<u16>) -> Seq<u16> {
    if last_dot(name) <= 0 {
        name
    } else {
        name.subrange(0, last_dot(name))
    }
}

/// A name after its last dot, unless there is none or only the leading one.
pub open spec fn name_extension(name: Seq<u16>) -> Option<Seq<u16>> {
    if last_dot(name) <= 0 {
        None
    } else {
        Some(name.subrange(last_dot(name) + 1, name.len() as int))
    }
}

pub open spec fn path_stem(s: Seq<u16>) -> Option<Seq<u16>> {
    match path_name(s) {
        Some(name) => Some(name_stem(name)),
        None => None,
    }
}

pub open spec fn path_extension(s: Seq<u16>) -> Option<Seq<u16>> {
    match path_name(s) {
        Some(name) => name_extension(name),
        None => None,
    }
}

/// The path with another extension on its last name; unchanged where there is no name.
pub open spec fn with_extension(s: Seq<u16>, extension: Seq<u16>) -> Seq<u16> {
    match path_stem(s) {
        Some(stem) => {
            let kept = s.subrange(0, last_start(s) + stem.len());
            if extension.len() > 0 {
                kept.push(DOT) + extension
            } else {
                kept
            }
        },
        None => s,
    }
}

/// Adds the components of a relative path to those of a verbatim one, resolving `.` and `..`.
pub open spec fn verbatim_components(base: Seq<Component>, added: Seq<Component>) -> Seq<Component>
    decreases added.len(),
{
    if added.len() == 0 {
        base
    } else {
        let rest = added.subrange(1, added.len() as int);
        match added[0] {
            Component::RootDir => verbatim_components(
                base.subrange(0, if base.len() > 0 { 1int } else { 0int }).push(Component::RootDir),
                rest,
            ),
            Component::CurDir => verbatim_components(base, rest),
            Component::ParentDir => if base.len() > 0 && base.last() is Normal {
                verbatim_components(base.drop_last(), rest)
            } else {
                verbatim_components(base, rest)
            },
            other => verbatim_components(base.push(other), rest),
        }
    }
}

pub open spec fn component_text(component: Component, prefix: Seq<u16>) -> Seq<u16> {
    match component {
        Component::Prefix(_) => prefix,
        Component::RootDir => seq![BACKSLASH],
        Component::CurDir => seq![DOT],
        Component::ParentDir => seq![DOT, DOT],
        Component::Normal(name) => name,
    }
}

/// A path written out from its components, with `prefix` as the text of its prefix.
pub open spec fn rendered(parts: Seq<Component>, prefix: Seq<u16>) -> Seq<u16>
    decreases parts.len(),
{
    if parts.len() == 0 {
        Seq::empty()
    } else {
        let before = parts.drop_last();
        let text = rendered(before, prefix);
        let spaced = if before.len() > 0 && before.last() !is RootDir && parts.last() !is RootDir {
            text.push(BACKSLASH)
        } else {
            text
        };
        spaced + component_text(parts.last(), prefix)
    }
}

/// `base` followed by `added`: an absolute path replaces it, a rooted one keeps its prefix.
pub open spec fn joined(base: Seq<u16>, added: Seq<u16>) -> Seq<u16> {
    if prefix_of(added) is Some {
        added
    } else if is_verbatim(base) && added.len() > 0 {
        rendered(
            verbatim_components(components(base), components(added)),
            base.subrange(0, prefix_len(base)),
        )
    } else if has_root(added) {
        base.subrange(0, prefix_len(base)) + added
    } else if base.len() == 0 || is_sep(base.last()) || (prefix_of(base) matches Some((
        Prefix::Disk(_),
        len,
    )) && len == base.len()) {
        base + added
    } else {
        base.push(BACKSLASH) + added
    }
}

/// Where the component after the first `count` of the body starts.
pub open spec fn rest_start(s: Seq<u16>, from: int, count: nat, verbatim: bool) -> int
    decreases s.len() - from,
    when 0 <= from
{
    if from >= s.len() {
        s.len() as int
    } else {
        proof {
            lemma_piece_end(s, from, verbatim);
        }
        let end = piece_end(s, from, verbatim);
        if piece_component(s.subrange(from, end), verbatim) is None {
            rest_start(s, after_piece(s, end), count, verbatim)
        } else if count == 0 {
            from
        } else {
            rest_start(s, after_piece(s, end), (count - 1) as nat, verbatim)
        }
    }
}

/// What is left of a path once its first `count` components are taken off.
pub open spec fn path_after(s: Seq<u16>, count: int) -> Seq<u16> {
    let head = head_components(s).len();
    let from = if count == 0 {
        0
    } else if count < head || (count == head && head_components(s).last() is Prefix) {
        prefix_len(s)
    } else {
        rest_start(s, body_start(s), (count - head) as nat, is_verbatim(s))
    };
    if from <= body_end(s) {
        s.subrange(from, body_end(s))
    } else {
        Seq::empty()
    }
}

/// The path below `base`, when its components start with those of `base`.
pub open spec fn stripped(s: Seq<u16>, base: Seq<u16>) -> Option<Seq<u16>> {
    if path_starts_with(s, base) {
        Some(path_after(s, components(base).len() as int))
    } else {
        None
    }
}

// ---- executable forms ----

pub fn unit_is_sep(unit: u16) -> (sep: bool)
    ensures
        sep == is_sep(unit),
{
    unit == BACKSLASH || unit == SLASH
}

fn unit_splits(verbatim: bool, unit: u16) -> (split: bool)
    ensures
        split == splits(verbatim, unit),
{
    unit == BACKSLASH || (!verbatim && unit == SLASH)
}

fn unit_is_letter(unit: u16) -> (letter: bool)
    ensures
        letter == is_letter(unit),
{
    (0x41 <= unit && unit <= 0x5a) || (0x61 <= unit && unit <= 0x7a)
}

fn unit_upper(unit: u16) -> (upper: u16)
    ensures
        upper == upper_letter(unit),
{
    if 0x61 <= unit && unit <= 0x7a {
        unit - 0x20
    } else {
        unit
    }
}

fn find_piece_end(s: &[u16], from: usize, verbatim: bool) -> (end: usize)
    requires
        from <= s@.len(),
    ensures
        end == piece_end(s@, from as int, verbatim),
        from <= end <= s@.len(),
{
    let mut end: usize = from;
    while end < s.len() && !unit_splits(verbatim, s[end])
        invariant
            from <= end <= s@.len(),
            piece_end(s@, from as int, verbatim) == piece_end(s@, end as int, verbatim),
        decreases s@.len() - end,
    {
        end += 1;
    }
    end
}

#[derive(Clone, Copy, Debug, PartialEq, Eq, Structural)]
pub enum PrefixKind {
    Verbatim,
    VerbatimUnc,
    VerbatimDisk,
    Device,
    Unc,
    Disk,
}

/// A prefix as positions in its path: its length, and where its one or two names lie.
#[derive(Clone, Copy, Debug)]
pub struct PrefixSpan {
    pub kind: PrefixKind,
    pub len: usize,
    pub first: usize,
    pub first_end: usize,
    pub second: usize,
    pub second_end: usize,
}

impl PrefixSpan {
    pub open spec fn well_formed(self, s: Seq<u16>) -> bool {
        &&& self.first <= self.first_end <= s.len()
        &&& self.second <= self.second_end <= s.len()
        &&& self.len <= s.len()
        &&& self.kind == PrefixKind::Disk ==> s.len() >= 2
        &&& self.kind == PrefixKind::VerbatimDisk ==> s.len() >= 6
    }

    pub open spec fn denotes(self, s: Seq<u16>) -> Prefix {
        let first = s.subrange(self.first as int, self.first_end as int);
        let second = s.subrange(self.second as int, self.second_end as int);
        match self.kind {
            PrefixKind::Verbatim => Prefix::Verbatim(first),
            PrefixKind::VerbatimUnc => Prefix::VerbatimUnc(first, second),
            PrefixKind::VerbatimDisk => Prefix::VerbatimDisk(upper_letter(s[4])),
            PrefixKind::Device => Prefix::Device(first),
            PrefixKind::Unc => Prefix::Unc(first, second),
            PrefixKind::Disk => Prefix::Disk(upper_letter(s[0])),
        }
    }
}

fn find_server_share(s: &[u16], at: usize, verbatim: bool) -> (span: PrefixSpan)
    requires
        at <= s@.len(),
    ensures
        span.first == at,
        span.well_formed(s@),
        span.kind == PrefixKind::Unc,
        server_share(s@, at as int, verbatim) == (
            s@.subrange(span.first as int, span.first_end as int),
            s@.subrange(span.second as int, span.second_end as int),
            span.len as int,
        ),
{
    let first_end: usize = find_piece_end(s, at, verbatim);
    let second: usize = if first_end < s.len() {
        first_end + 1
    } else {
        s.len()
    };
    let second_end: usize = find_piece_end(s, second, verbatim);
    let len: usize = if second_end > second {
        second_end
    } else {
        first_end
    };
    PrefixSpan { kind: PrefixKind::Unc, len, first: at, first_end, second, second_end }
}

fn drive_at_position(s: &[u16], at: usize) -> (drive: bool)
    requires
        at <= 4,
    ensures
        drive == drive_at(s@, at as int),
{
    s.len() >= at + 2 && unit_is_letter(s[at]) && s[at + 1] == COLON
}

/// The prefix at the start of a path.
pub fn parse_prefix(s: &[u16]) -> (span: Option<PrefixSpan>)
    ensures
        span is Some <==> prefix_of(s@) is Some,
        span matches Some(span) ==> span.well_formed(s@) && prefix_of(s@) == Some(
            (span.denotes(s@), span.len as int),
        ),
{
    if s.len() >= 2 && unit_is_sep(s[0]) && unit_is_sep(s[1]) {
        if s.len() >= 4 && s[0] == BACKSLASH && s[1] == BACKSLASH && s[2] == QUESTION && s[3]
            == BACKSLASH {
            if s.len() >= 8 && s[4] == 0x55 && s[5] == 0x4e && s[6] == 0x43 && unit_is_sep(s[7]) {
                let span = find_server_share(s, 8, true);
                Some(PrefixSpan { kind: PrefixKind::VerbatimUnc, ..span })
            } else if drive_at_position(s, 4) && (s.len() == 6 || unit_is_sep(s[6])) {
                Some(
                    PrefixSpan {
                        kind: PrefixKind::VerbatimDisk,
                        len: 6,
                        first: 0,
                        first_end: 0,
                        second: 0,
                        second_end: 0,
                    },
                )
            } else {
                let end: usize = find_piece_end(s, 4, true);
                Some(
                    PrefixSpan {
                        kind: PrefixKind::Verbatim,
                        len: end,
                        first: 4,
                        first_end: end,
                        second: 0,
                        second_end: 0,
                    },
                )
            }
        } else if s.len() >= 4 && s[2] == DOT && unit_is_sep(s[3]) {
            let end: usize = find_piece_end(s, 4, false);
            Some(
                PrefixSpan {
                    kind: PrefixKind::Device,
                    len: end,
                    first: 4,
                    first_end: end,
                    second: 0,
                    second_end: 0,
                },
            )
        } else {
            let span = find_server_share(s, 2, false);
            if span.first_end > span.first && span.second_end > span.second {
                Some(span)
            } else {
                None
            }
        }
    } else if drive_at_position(s, 0) {
        Some(
            PrefixSpan {
                kind: PrefixKind::Disk,
                len: 2,
                first: 0,
                first_end: 0,
                second: 0,
                second_end: 0,
            },
        )
    } else {
        None
    }
}

fn slices_eq(a: &[u16], a_start: usize, a_end: usize, b: &[u16], b_start: usize, b_end: usize) -> (r:
    bool)
    requires
        a_start <= a_end <= a@.len(),
        b_start <= b_end <= b@.len(),
    ensures
        r == (a@.subrange(a_start as int, a_end as int) == b@.subrange(b_start as int, b_end as int)),
{
    units_eq(
        vstd::slice::slice_subrange(a, a_start, a_end),
        vstd::slice::slice_subrange(b, b_start, b_end),
    )
}

fn prefix_eq(a: &[u16], pa: PrefixSpan, b: &[u16], pb: PrefixSpan) -> (equal: bool)
    requires
        pa.well_formed(a@),
        pb.well_formed(b@),
    ensures
        equal == (pa.denotes(a@) == pb.denotes(b@)),
{
    if pa.kind != pb.kind {
        return false;
    }
    match pa.kind {
        PrefixKind::Disk => unit_upper(a[0]) == unit_upper(b[0]),
        PrefixKind::VerbatimDisk => unit_upper(a[4]) == unit_upper(b[4]),
        PrefixKind::Verbatim | PrefixKind::Device => slices_eq(
            a,
            pa.first,
            pa.first_end,
            b,
            pb.first,
            pb.first_end,
        ),
        PrefixKind::VerbatimUnc | PrefixKind::Unc => slices_eq(
            a,
            pa.first,
            pa.first_end,
            b,
            pb.first,
            pb.first_end,
        ) && slices_eq(a, pa.second, pa.second_end, b, pb.second, pb.second_end),
    }
}

/// What comes before the body of a path.
#[derive(Clone, Copy, Debug)]
pub struct PathShape {
    pub prefix: Option<PrefixSpan>,
    pub prefix_len: usize,
    pub verbatim: bool,
    pub physical_root: bool,
    pub implicit_root: bool,
    pub leading_dot: bool,
    pub start: usize,
}

impl PathShape {
    pub open spec fn describes(self, s: Seq<u16>) -> bool {
        &&& self.prefix is Some <==> prefix_of(s) is Some
        &&& self.prefix matches Some(span) ==> span.well_formed(s) && prefix_of(s) == Some(
            (span.denotes(s), span.len as int),
        )
        &&& self.prefix_len == prefix_len(s)
        &&& self.verbatim == is_verbatim(s)
        &&& self.physical_root == physical_root(s)
        &&& self.implicit_root == implicit_root(s)
        &&& self.leading_dot == leading_dot(s)
        &&& self.start == body_start(s)
        &&& self.prefix_len <= self.start <= s.len()
    }
}

pub fn path_shape(s: &[u16]) -> (shape: PathShape)
    ensures
        shape.describes(s@),
{
    let prefix = parse_prefix(s);
    let (len, verbatim, implicit): (usize, bool, bool) = match prefix {
        None => (0, false, false),
        Some(span) => (
            span.len,
            match span.kind {
                PrefixKind::Verbatim | PrefixKind::VerbatimUnc | PrefixKind::VerbatimDisk => true,
                _ => false,
            },
            match span.kind {
                PrefixKind::Disk => false,
                _ => true,
            },
        ),
    };
    let physical: bool = len < s.len() && unit_is_sep(s[len]);
    let dot: bool = !physical && !implicit && len < s.len() && s[len] == DOT && (s.len() == len + 1
        || unit_splits(verbatim, s[len + 1]));
    let start: usize = if physical || dot {
        len + 1
    } else {
        len
    };
    PathShape {
        prefix,
        prefix_len: len,
        verbatim,
        physical_root: physical,
        implicit_root: implicit,
        leading_dot: dot,
        start,
    }
}

/// A component with its own copy of a name; the prefix text stays with the path.
#[derive(Debug, PartialEq, Eq)]
pub enum PathComponent {
    Prefix,
    RootDir,
    CurDir,
    ParentDir,
    Normal(Vec<u16>),
}

impl PathComponent {
    /// The component meant, in a path with the given prefix.
    pub open spec fn denotes(self, prefix: Option<(Prefix, int)>) -> Component {
        match self {
            PathComponent::Prefix => Component::Prefix((prefix->0).0),
            PathComponent::RootDir => Component::RootDir,
            PathComponent::CurDir => Component::CurDir,
            PathComponent::ParentDir => Component::ParentDir,
            PathComponent::Normal(name) => Component::Normal(name@),
        }
    }
}

pub open spec fn denoted(parts: Seq<PathComponent>, prefix: Option<(Prefix, int)>) -> Seq<
    Component,
> {
    Seq::new(parts.len(), |i: int| parts[i].denotes(prefix))
}

fn classify_piece(s: &[u16], from: usize, end: usize, verbatim: bool, prefix: Ghost<
    Option<(Prefix, int)>,
>) -> (part: Option<PathComponent>)
    requires
        from <= end <= s@.len(),
    ensures
        ({
            let meant = piece_component(s@.subrange(from as int, end as int), verbatim);
            &&& part is Some <==> meant is Some
            &&& part matches Some(part) ==> part.denotes(prefix@) == meant->0
        }),
{
    let n: usize = end - from;
    if n == 0 {
        None
    } else if n == 1 && s[from] == DOT {
        if verbatim {
            Some(PathComponent::CurDir)
        } else {
            None
        }
    } else if n == 2 && s[from] == DOT && s[from + 1] == DOT {
        Some(PathComponent::ParentDir)
    } else {
        Some(PathComponent::Normal(units_copy(s, from, end)))
    }
}

fn piece_is_meaningful(s: &[u16], from: usize, end: usize, verbatim: bool) -> (meaningful: bool)
    requires
        from <= end <= s@.len(),
    ensures
        meaningful == (piece_component(s@.subrange(from as int, end as int), verbatim) is Some),
{
    let n: usize = end - from;
    !(n == 0 || (n == 1 && s[from] == DOT && !verbatim))
}

/// The components of a path.
pub fn path_components(s: &[u16]) -> (parts: Vec<PathComponent>)
    ensures
        denoted(parts@, prefix_of(s@)) == components(s@),
{
    let shape = path_shape(s);
    let ghost prefix = prefix_of(s@);
    let mut parts: Vec<PathComponent> = Vec::new();
    if shape.prefix.is_some() {
        parts.push(PathComponent::Prefix);
    }
    if shape.physical_root || (shape.implicit_root && !shape.verbatim) {
        parts.push(PathComponent::RootDir);
    } else if shape.prefix.is_none() && shape.leading_dot {
        parts.push(PathComponent::CurDir);
    }
    assert(denoted(parts@, prefix) =~= head_components(s@));
    let mut from: usize = shape.start;
    assert(denoted(parts@, prefix) + body_components(s@, from as int, shape.verbatim)
        =~= components(s@));
    while from < s.len()
        invariant
            from <= s@.len(),
            prefix == prefix_of(s@),
            shape.verbatim == is_verbatim(s@),
            denoted(parts@, prefix) + body_components(s@, from as int, shape.verbatim)
                == components(s@),
        decreases s@.len() - from,
    {
        let end: usize = find_piece_end(s, from, shape.verbatim);
        let ghost before = denoted(parts@, prefix);
        let next: usize = if end < s.len() {
            end + 1
        } else {
            s.len()
        };
        match classify_piece(s, from, end, shape.verbatim, Ghost(prefix)) {
            Some(part) => {
                parts.push(part);
                proof {
                    let rest = body_components(s@, next as int, shape.verbatim);
                    assert(denoted(parts@, prefix) =~= before.push(part.denotes(prefix)));
                    assert(before + (seq![part.denotes(prefix)] + rest) =~= before.push(
                        part.denotes(prefix),
                    ) + rest);
                }
            },
            None => {},
        }
        from = next;
    }
    assert(denoted(parts@, prefix) =~= components(s@));
    parts
}

fn component_eq(
    a: &[u16],
    pa: Option<PrefixSpan>,
    x: &PathComponent,
    b: &[u16],
    pb: Option<PrefixSpan>,
    y: &PathComponent,
) -> (equal: bool)
    requires
        x is Prefix ==> pa is Some,
        y is Prefix ==> pb is Some,
        pa matches Some(span) ==> span.well_formed(a@) && prefix_of(a@) == Some(
            (span.denotes(a@), span.len as int),
        ),
        pb matches Some(span) ==> span.well_formed(b@) && prefix_of(b@) == Some(
            (span.denotes(b@), span.len as int),
        ),
    ensures
        equal == (x.denotes(prefix_of(a@)) == y.denotes(prefix_of(b@))),
{
    match (x, y) {
        (PathComponent::Prefix, PathComponent::Prefix) => match (pa, pb) {
            (Some(pa), Some(pb)) => prefix_eq(a, pa, b, pb),
            _ => false,
        },
        (PathComponent::RootDir, PathComponent::RootDir) => true,
        (PathComponent::CurDir, PathComponent::CurDir) => true,
        (PathComponent::ParentDir, PathComponent::ParentDir) => true,
        (PathComponent::Normal(n), PathComponent::Normal(m)) => units_eq(n.as_slice(), m.as_slice()),
        _ => false,
    }
}

pub proof fn lemma_body_start(s: Seq<u16>)
    ensures
        0 <= prefix_len(s) <= body_start(s) <= s.len(),
{
    lemma_server_share(s, 8, true);
    lemma_server_share(s, 2, false);
    if s.len() >= 4 {
        lemma_piece_end(s, 4, true);
        lemma_piece_end(s, 4, false);
    }
}

proof fn lemma_server_share(s: Seq<u16>, at: int, verbatim: bool)
    requires
        0 <= at,
    ensures
        at <= s.len() ==> at <= server_share(s, at, verbatim).2 <= s.len(),
{
    if at <= s.len() {
        lemma_piece_end(s, at, verbatim);
        lemma_piece_end(s, after_piece(s, piece_end(s, at, verbatim)), verbatim);
    }
}

pub proof fn lemma_meaningful_end(s: Seq<u16>, start: int, end: int, verbatim: bool)
    requires
        0 <= start <= end <= s.len(),
    ensures
        start <= meaningful_end(s, start, end, verbatim) <= end,
        ({
            let kept = meaningful_end(s, start, end, verbatim);
            kept > start ==> piece_component(
                s.subrange(last_piece(s, start, kept, verbatim), kept),
                verbatim,
            ) is Some
        }),
    decreases end - start,
{
    if end > start {
        lemma_last_piece(s, start, end, verbatim);
        let piece = last_piece(s, start, end, verbatim);
        if piece_component(s.subrange(piece, end), verbatim) is None {
            lemma_meaningful_end(s, start, before_piece(start, piece), verbatim);
        }
    }
}

/// A parent is shorter than its path.
pub proof fn lemma_parent_is_shorter(s: Seq<u16>)
    ensures
        path_parent(s) matches Some(parent) ==> parent.len() < s.len(),
{
    lemma_body_start(s);
    let start = body_start(s);
    let verbatim = is_verbatim(s);
    lemma_meaningful_end(s, start, s.len() as int, verbatim);
    if body_end(s) > start {
        lemma_last_piece(s, start, body_end(s), verbatim);
        lemma_meaningful_end(s, start, before_piece(start, last_start(s)), verbatim);
    }
}

proof fn lemma_prefix_component(s: Seq<u16>, i: int)
    requires
        0 <= i < components(s).len(),
        components(s)[i] is Prefix,
    ensures
        prefix_of(s) is Some,
{
    let head = head_components(s);
    lemma_body_start(s);
    if i >= head.len() {
        lemma_body_has_no_prefix(s, body_start(s), is_verbatim(s), i - head.len());
    }
}

proof fn lemma_body_has_no_prefix(s: Seq<u16>, from: int, verbatim: bool, i: int)
    requires
        0 <= from,
        0 <= i < body_components(s, from, verbatim).len(),
    ensures
        body_components(s, from, verbatim)[i] !is Prefix,
    decreases s.len() - from,
{
    lemma_piece_end(s, from, verbatim);
    let end = piece_end(s, from, verbatim);
    let rest = body_components(s, after_piece(s, end), verbatim);
    match piece_component(s.subrange(from, end), verbatim) {
        Some(component) => {
            if i > 0 {
                lemma_body_has_no_prefix(s, after_piece(s, end), verbatim, i - 1);
            }
        },
        None => {
            lemma_body_has_no_prefix(s, after_piece(s, end), verbatim, i);
        },
    }
}

/// How many leading components two paths share, counted up to all of `base`; with the number of
/// components that `base` has and whether all of them were found.
fn shared_start(s: &[u16], base: &[u16]) -> (r: (bool, usize, usize))
    ensures
        r.0 == path_starts_with(s@, base@),
        r.1 == components(base@).len(),
        r.2 == components(s@).len(),
{
    let ps = parse_prefix(s);
    let pb = parse_prefix(base);
    let parts = path_components(s);
    let wanted = path_components(base);
    let ghost cs = components(s@);
    let ghost cb = components(base@);
    assert(cs.len() == parts@.len());
    assert(cb.len() == wanted@.len());
    assert(forall|i: int| 0 <= i < cs.len() ==> cs[i] == (#[trigger] parts@[i]).denotes(prefix_of(s@)));
    assert(forall|i: int|
        0 <= i < cb.len() ==> cb[i] == (#[trigger] wanted@[i]).denotes(prefix_of(base@)));
    if wanted.len() > parts.len() {
        return (false, wanted.len(), parts.len());
    }
    let mut i: usize = 0;
    while i < wanted.len()
        invariant
            i <= wanted@.len() <= parts@.len(),
            cs == components(s@),
            cb == components(base@),
            cs.len() == parts@.len(),
            cb.len() == wanted@.len(),
            forall|j: int|
                0 <= j < cs.len() ==> cs[j] == (#[trigger] parts@[j]).denotes(prefix_of(s@)),
            forall|j: int|
                0 <= j < cb.len() ==> cb[j] == (#[trigger] wanted@[j]).denotes(prefix_of(base@)),
            forall|j: int| 0 <= j < i ==> cs[j] == cb[j],
            ps is Some <==> prefix_of(s@) is Some,
            pb is Some <==> prefix_of(base@) is Some,
            ps matches Some(span) ==> span.well_formed(s@) && prefix_of(s@) == Some(
                (span.denotes(s@), span.len as int),
            ),
            pb matches Some(span) ==> span.well_formed(base@) && prefix_of(base@) == Some(
                (span.denotes(base@), span.len as int),
            ),
        decreases wanted@.len() - i,
    {
        proof {
            if parts@[i as int] is Prefix {
                lemma_prefix_component(s@, i as int);
            }
            if wanted@[i as int] is Prefix {
                lemma_prefix_component(base@, i as int);
            }
        }
        if !component_eq(s, ps, &parts[i], base, pb, &wanted[i]) {
            assert(cs[i as int] != cb[i as int]);
            assert(cs.subrange(0, cb.len() as int)[i as int] == cs[i as int]);
            return (false, wanted.len(), parts.len());
        }
        i += 1;
    }
    assert(cs.subrange(0, cb.len() as int) =~= cb);
    (true, wanted.len(), parts.len())
}

/// Both paths have the same components: separators, `.` and the case of a drive letter do not
/// count.
pub fn path_eq(a: &[u16], b: &[u16]) -> (equal: bool)
    ensures
        equal == same_path(a@, b@),
{
    let (found, wanted, all) = shared_start(a, b);
    proof {
        if found && wanted == all {
            assert(components(a@) =~= components(b@));
        }
    }
    found && wanted == all
}

/// Whether `base` is the path itself or an ancestor of it.
pub fn starts_with_path(s: &[u16], base: &[u16]) -> (found: bool)
    ensures
        found == path_starts_with(s@, base@),
{
    shared_start(s, base).0
}

fn find_last_piece(s: &[u16], start: usize, end: usize, verbatim: bool) -> (piece: usize)
    requires
        start <= end <= s@.len(),
    ensures
        piece == last_piece(s@, start as int, end as int, verbatim),
        start <= piece <= end,
{
    let mut piece: usize = end;
    while piece > start && !unit_splits(verbatim, s[piece - 1])
        invariant
            start <= piece <= end <= s@.len(),
            last_piece(s@, start as int, end as int, verbatim) == last_piece(
                s@,
                start as int,
                piece as int,
                verbatim,
            ),
        decreases piece,
    {
        piece -= 1;
    }
    piece
}

fn find_meaningful_end(s: &[u16], start: usize, end: usize, verbatim: bool) -> (kept: usize)
    requires
        start <= end <= s@.len(),
    ensures
        kept == meaningful_end(s@, start as int, end as int, verbatim),
        start <= kept <= end,
{
    let mut kept: usize = end;
    while kept > start
        invariant
            start <= kept <= end <= s@.len(),
            meaningful_end(s@, start as int, end as int, verbatim) == meaningful_end(
                s@,
                start as int,
                kept as int,
                verbatim,
            ),
        decreases kept,
    {
        proof {
            lemma_last_piece(s@, start as int, kept as int, verbatim);
        }
        let piece: usize = find_last_piece(s, start, kept, verbatim);
        if piece_is_meaningful(s, piece, kept, verbatim) {
            return kept;
        }
        kept = if piece > start {
            piece - 1
        } else {
            piece
        };
    }
    kept
}

/// The path without its last component; nothing for a root, a bare prefix or an empty path.
pub fn parent_of(s: &[u16]) -> (parent: Option<Vec<u16>>)
    ensures
        parent is Some <==> path_parent(s@) is Some,
        parent matches Some(parent) ==> path_parent(s@) == Some(parent@) && parent@.len() < s@.len(),
{
    let shape = path_shape(s);
    let end: usize = find_meaningful_end(s, shape.start, s.len(), shape.verbatim);
    if end > shape.start {
        proof {
            lemma_last_piece(s@, shape.start as int, end as int, shape.verbatim);
        }
        let piece: usize = find_last_piece(s, shape.start, end, shape.verbatim);
        let cut: usize = if piece > shape.start {
            piece - 1
        } else {
            piece
        };
        let kept: usize = find_meaningful_end(s, shape.start, cut, shape.verbatim);
        Some(units_copy(s, 0, kept))
    } else if shape.prefix.is_none() && shape.leading_dot {
        let empty: Vec<u16> = Vec::new();
        assert(empty@ =~= Seq::<u16>::empty());
        Some(empty)
    } else {
        None
    }
}

/// The last component, when it is a name.
pub fn file_name_of(s: &[u16]) -> (name: Option<Vec<u16>>)
    ensures
        name is Some <==> path_name(s@) is Some,
        name matches Some(name) ==> path_name(s@) == Some(name@),
{
    let shape = path_shape(s);
    let end: usize = find_meaningful_end(s, shape.start, s.len(), shape.verbatim);
    if end > shape.start {
        let piece: usize = find_last_piece(s, shape.start, end, shape.verbatim);
        match classify_piece(s, piece, end, shape.verbatim, Ghost(prefix_of(s@))) {
            Some(PathComponent::Normal(name)) => Some(name),
            _ => None,
        }
    } else {
        None
    }
}

fn find_last_dot(name: &[u16]) -> (dot: Option<usize>)
    ensures
        match dot {
            Some(at) => at == last_dot(name@) && at < name@.len(),
            None => last_dot(name@) == -1,
        },
{
    let mut n: usize = name.len();
    assert(name@.subrange(0, n as int) =~= name@);
    while n > 0
        invariant
            n <= name@.len(),
            last_dot(name@) == last_dot(name@.subrange(0, n as int)),
        decreases n,
    {
        assert(name@.subrange(0, n as int).last() == name@[n - 1]);
        assert(name@.subrange(0, n as int).drop_last() =~= name@.subrange(0, n - 1));
        if name[n - 1] == DOT {
            return Some(n - 1);
        }
        n -= 1;
    }
    None
}

/// The last name of the path before its extension.
pub fn file_stem_of(s: &[u16]) -> (stem: Option<Vec<u16>>)
    ensures
        stem is Some <==> path_stem(s@) is Some,
        stem matches Some(stem) ==> path_stem(s@) == Some(stem@),
{
    match file_name_of(s) {
        Some(name) => match find_last_dot(name.as_slice()) {
            Some(at) if at > 0 => Some(units_copy(name.as_slice(), 0, at)),
            _ => Some(name),
        },
        None => None,
    }
}

/// The extension of the last name of the path.
pub fn extension_of(s: &[u16]) -> (extension: Option<Vec<u16>>)
    ensures
        extension is Some <==> path_extension(s@) is Some,
        extension matches Some(extension) ==> path_extension(s@) == Some(extension@),
{
    match file_name_of(s) {
        Some(name) => {
            let n: usize = name.len();
            match find_last_dot(name.as_slice()) {
                Some(at) if at > 0 => Some(units_copy(name.as_slice(), at + 1, n)),
                _ => None,
            }
        },
        None => None,
    }
}

/// The path with another extension on its last name.
pub fn set_extension_of(s: &[u16], extension: &[u16]) -> (changed: Vec<u16>)
    ensures
        changed@ == with_extension(s@, extension@),
{
    let shape = path_shape(s);
    let end: usize = find_meaningful_end(s, shape.start, s.len(), shape.verbatim);
    match file_stem_of(s) {
        Some(stem) => {
            let piece: usize = find_last_piece(s, shape.start, end, shape.verbatim);
            proof {
                let name = s@.subrange(piece as int, end as int);
                assert(path_name(s@) == Some(name));
                lemma_last_dot(name);
            }
            let mut changed = units_copy(s, 0, piece + stem.len());
            if extension.len() > 0 {
                changed.push(DOT);
                push_units(&mut changed, extension);
            }
            changed
        },
        None => units_copy_all(s),
    }
}

proof fn lemma_last_dot(name: Seq<u16>)
    ensures
        -1 <= last_dot(name) < name.len() || name.len() == 0,
        last_dot(name) >= -1,
    decreases name.len(),
{
    if name.len() > 0 && name.last() != DOT {
        lemma_last_dot(name.drop_last());
    }
}

pub fn units_copy_all(s: &[u16]) -> (copy: Vec<u16>)
    ensures
        copy@ == s@,
{
    vstd::slice::slice_to_vec(s)
}

// ---- joining ----

proof fn lemma_denoted_push(parts: Seq<PathComponent>, part: PathComponent, prefix: Option<
    (Prefix, int),
>)
    ensures
        denoted(parts.push(part), prefix) == denoted(parts, prefix).push(part.denotes(prefix)),
{
    assert(denoted(parts.push(part), prefix) =~= denoted(parts, prefix).push(part.denotes(prefix)));
}

fn push_component_text(text: &mut Vec<u16>, part: &PathComponent, prefix_text: &[u16], prefix: Ghost<
    Option<(Prefix, int)>,
>)
    ensures
        final(text)@ == old(text)@ + component_text(part.denotes(prefix@), prefix_text@),
{
    match part {
        PathComponent::Prefix => push_units(text, prefix_text),
        PathComponent::RootDir => {
            text.push(BACKSLASH);
        },
        PathComponent::CurDir => {
            text.push(DOT);
        },
        PathComponent::ParentDir => {
            text.push(DOT);
            text.push(DOT);
        },
        PathComponent::Normal(name) => push_units(text, name.as_slice()),
    }
    assert(text@ =~= old(text)@ + component_text(part.denotes(prefix@), prefix_text@));
}

fn render(parts: &Vec<PathComponent>, prefix_text: &[u16], prefix: Ghost<
    Option<(Prefix, int)>,
>) -> (text: Vec<u16>)
    ensures
        text@ == rendered(denoted(parts@, prefix@), prefix_text@),
{
    let mut text: Vec<u16> = Vec::new();
    let mut i: usize = 0;
    let ghost all = denoted(parts@, prefix@);
    while i < parts.len()
        invariant
            i <= parts@.len(),
            all == denoted(parts@, prefix@),
            text@ == rendered(all.subrange(0, i as int), prefix_text@),
        decreases parts@.len() - i,
    {
        proof {
            let next = all.subrange(0, i + 1);
            assert(next.drop_last() =~= all.subrange(0, i as int));
            assert(next.last() == parts@[i as int].denotes(prefix@));
            if i > 0 {
                assert(next.drop_last().last() == parts@[i - 1].denotes(prefix@));
            }
        }
        let rooted = i == 0 || matches!(parts[i - 1], PathComponent::RootDir) || matches!(
            parts[i],
            PathComponent::RootDir
        );
        if !rooted {
            text.push(BACKSLASH);
        }
        push_component_text(&mut text, &parts[i], prefix_text, prefix);
        i += 1;
    }
    assert(all.subrange(0, i as int) =~= all);
    text
}

/// The components of a verbatim path with those of a relative path added.
fn add_verbatim(
    base: Vec<PathComponent>,
    added: &Vec<PathComponent>,
    prefix: Ghost<Option<(Prefix, int)>>,
) -> (parts: Vec<PathComponent>)
    ensures
        denoted(parts@, prefix@) == verbatim_components(
            denoted(base@, prefix@),
            denoted(added@, prefix@),
        ),
{
    let mut parts = base;
    let mut i: usize = 0;
    let ghost all = denoted(added@, prefix@);
    assert(all.subrange(0, all.len() as int) =~= all);
    while i < added.len()
        invariant
            i <= added@.len(),
            all == denoted(added@, prefix@),
            verbatim_components(denoted(base@, prefix@), all) == verbatim_components(
                denoted(parts@, prefix@),
                all.subrange(i as int, all.len() as int),
            ),
        decreases added@.len() - i,
    {
        let ghost before = parts@;
        let ghost rest = all.subrange(i as int, all.len() as int);
        proof {
            assert(rest.subrange(1, rest.len() as int) =~= all.subrange(i + 1, all.len() as int));
            assert(rest[0] == added@[i as int].denotes(prefix@));
        }
        match &added[i] {
            PathComponent::RootDir => {
                parts.truncate(1);
                parts.push(PathComponent::RootDir);
                proof {
                    let base_parts = denoted(before, prefix@);
                    assert(denoted(parts@, prefix@) =~= base_parts.subrange(
                        0,
                        if base_parts.len() > 0 { 1int } else { 0int },
                    ).push(Component::RootDir));
                }
            },
            PathComponent::CurDir => {},
            PathComponent::ParentDir => {
                let n: usize = parts.len();
                if n > 0 {
                    assert(denoted(before, prefix@).last() == before[n - 1].denotes(prefix@));
                    if matches!(parts[n - 1], PathComponent::Normal(_)) {
                        let _ = parts.pop();
                        assert(denoted(parts@, prefix@) =~= denoted(before, prefix@).drop_last());
                    }
                }
            },
            PathComponent::Normal(name) => {
                let copy = units_copy_all(name.as_slice());
                let part = PathComponent::Normal(copy);
                proof {
                    lemma_denoted_push(before, part, prefix@);
                }
                parts.push(part);
            },
            PathComponent::Prefix => {
                proof {
                    lemma_denoted_push(before, PathComponent::Prefix, prefix@);
                }
                parts.push(PathComponent::Prefix);
            },
        }
        i += 1;
    }
    assert(all.subrange(i as int, all.len() as int) =~= Seq::<Component>::empty());
    parts
}

/// `base` followed by `added`, as Windows reads it.
pub fn join(base: &[u16], added: &[u16]) -> (path: Vec<u16>)
    ensures
        path@ == joined(base@, added@),
{
    let shape = path_shape(base);
    let added_shape = path_shape(added);
    if added_shape.prefix.is_some() {
        return units_copy_all(added);
    }
    if shape.verbatim && added.len() > 0 {
        let parts = path_components(base);
        let more = path_components(added);
        proof {
            assert forall|i: int| 0 <= i < more@.len() implies !((#[trigger] more@[i]) is Prefix) by {
                assert(components(added@)[i] == more@[i].denotes(prefix_of(added@)));
                if more@[i] is Prefix {
                    lemma_prefix_component(added@, i);
                }
            }
            assert(denoted(more@, prefix_of(base@)) =~= components(added@));
        }
        let all = add_verbatim(parts, &more, Ghost(prefix_of(base@)));
        return render(
            &all,
            vstd::slice::slice_subrange(base, 0, shape.prefix_len),
            Ghost(prefix_of(base@)),
        );
    }
    if added_shape.physical_root || added_shape.implicit_root {
        let mut path = units_copy(base, 0, shape.prefix_len);
        push_units(&mut path, added);
        return path;
    }
    let mut path = units_copy_all(base);
    let n: usize = base.len();
    let bare_drive = match shape.prefix {
        Some(span) => match span.kind {
            PrefixKind::Disk => span.len == n,
            _ => false,
        },
        None => false,
    };
    if !(n == 0 || unit_is_sep(base[n - 1]) || bare_drive) {
        path.push(BACKSLASH);
    }
    push_units(&mut path, added);
    path
}

fn find_rest_start(s: &[u16], from: usize, count: usize, verbatim: bool) -> (start: usize)
    requires
        from <= s@.len(),
    ensures
        start == rest_start(s@, from as int, count as nat, verbatim),
        start <= s@.len(),
{
    let mut at: usize = from;
    let mut left: usize = count;
    while at < s.len()
        invariant
            at <= s@.len(),
            rest_start(s@, from as int, count as nat, verbatim) == rest_start(
                s@,
                at as int,
                left as nat,
                verbatim,
            ),
        decreases s@.len() - at,
    {
        let end: usize = find_piece_end(s, at, verbatim);
        if piece_is_meaningful(s, at, end, verbatim) {
            if left == 0 {
                return at;
            }
            left -= 1;
        }
        at = if end < s.len() {
            end + 1
        } else {
            s.len()
        };
    }
    at
}

/// The path below `base`, or nothing when it does not lie there.
pub fn strip_prefix_of(s: &[u16], base: &[u16]) -> (rest: Option<Vec<u16>>)
    ensures
        rest is Some <==> stripped(s@, base@) is Some,
        rest matches Some(rest) ==> stripped(s@, base@) == Some(rest@),
{
    let (found, count, _) = shared_start(s, base);
    if !found {
        return None;
    }
    let shape = path_shape(s);
    let end: usize = find_meaningful_end(s, shape.start, s.len(), shape.verbatim);
    let has_prefix: usize = if shape.prefix.is_some() {
        1
    } else {
        0
    };
    let has_second: bool = shape.physical_root || (shape.implicit_root && !shape.verbatim) || (
    shape.prefix.is_none() && shape.leading_dot);
    let head: usize = if has_second {
        has_prefix + 1
    } else {
        has_prefix
    };
    assert(head == head_components(s@).len());
    let from: usize = if count == 0 {
        0
    } else if count < head || (count == head && !has_second) {
        shape.prefix_len
    } else {
        find_rest_start(s, shape.start, count - head, shape.verbatim)
    };
    if from <= end {
        Some(units_copy(s, from, end))
    } else {
        let empty: Vec<u16> = Vec::new();
        assert(empty@ =~= Seq::<u16>::empty());
        Some(empty)
    }
}

// ---- lists of paths ----

/// A list of paths as values.
pub open spec fn path_views(paths: Seq<Vec<u16>>) -> Seq<Seq<u16>> {
    Seq::new(paths.len(), |i: int| paths[i]@)
}

/// Both lists have the same paths in the same order.
pub open spec fn same_paths(a: Seq<Seq<u16>>, b: Seq<Seq<u16>>) -> bool {
    a.len() == b.len() && forall|i: int| 0 <= i < a.len() ==> same_path(#[trigger] a[i], b[i])
}

pub fn copy_paths(paths: &[Vec<u16>]) -> (copies: Vec<Vec<u16>>)
    ensures
        path_views(copies@) == path_views(paths@),
{
    let mut copies: Vec<Vec<u16>> = Vec::new();
    let mut i: usize = 0;
    while i < paths.len()
        invariant
            i <= paths@.len(),
            copies@.len() == i,
            forall|j: int| 0 <= j < i ==> (#[trigger] copies@[j])@ == paths@[j]@,
        decreases paths@.len() - i,
    {
        copies.push(units_copy_all(paths[i].as_slice()));
        i += 1;
    }
    assert(path_views(copies@) =~= path_views(paths@));
    copies
}

pub fn path_lists_eq(a: &[Vec<u16>], b: &[Vec<u16>]) -> (equal: bool)
    ensures
        equal == same_paths(path_views(a@), path_views(b@)),
{
    if a.len() != b.len() {
        return false;
    }
    let mut i: usize = 0;
    while i < a.len()
        invariant
            i <= a@.len(),
            a@.len() == b@.len(),
            forall|j: int|
                0 <= j < i ==> same_path(#[trigger] path_views(a@)[j], path_views(b@)[j]),
        decreases a@.len() - i,
    {
        if !path_eq(a[i].as_slice(), b[i].as_slice()) {
            assert(!same_path(path_views(a@)[i as int], path_views(b@)[i as int]));
            return false;
        }
        i += 1;
    }
    true
}

// ---- laws ----

/// A name such as a folder holds: neither separators nor a colon in it, and no dot at its end.
pub open spec fn plain_name(name: Seq<u16>) -> bool {
    &&& name.len() > 0
    &&& forall|i: int|
        0 <= i < name.len() ==> name[i] != 0x5c && name[i] != 0x2f && #[trigger] name[i] != 0x3a
    &&& name.last() != 0x2e
}

/// The path of a folder below the root of a drive: `C:\...`, with a name at its end.
pub open spec fn plain_folder(folder: Seq<u16>) -> bool {
    &&& folder.len() > 3
    &&& 0x41 <= folder[0] <= 0x5a || 0x61 <= folder[0] <= 0x7a
    &&& folder[1] == 0x3a
    &&& folder[2] == 0x5c
    &&& folder.last() != 0x5c && folder.last() != 0x2f && folder.last() != 0x2e
}

proof fn lemma_last_piece_at(s: Seq<u16>, start: int, at: int, end: int)
    requires
        0 <= start <= at <= end <= s.len(),
        at > start ==> is_sep(s[at - 1]),
        forall|i: int| at <= i < end ==> !is_sep(#[trigger] s[i]),
    ensures
        last_piece(s, start, end, false) == at,
    decreases end - at,
{
    if end > at {
        assert(!is_sep(s[end - 1]));
        lemma_last_piece_at(s, start, at, end - 1);
    }
}

/// The shape of a name behind a folder.
pub proof fn lemma_below(folder: Seq<u16>, name: Seq<u16>)
    requires
        plain_folder(folder),
        plain_name(name),
    ensures
        ({
            let s = folder.push(0x5c) + name;
            &&& prefix_of(s) == prefix_of(folder)
            &&& prefix_len(s) == 2 && prefix_len(folder) == 2
            &&& !is_verbatim(s) && !is_verbatim(folder)
            &&& body_start(s) == 3 && body_start(folder) == 3
            &&& head_components(s) == head_components(folder)
            &&& body_end(s) == s.len()
            &&& last_start(s) == folder.len() + 1
            &&& prefix_of(name) is None && !has_root(name)
            &&& joined(folder, name) == s
            &&& path_name(s) == Some(name)
            &&& path_parent(s) == Some(folder)
        }),
{
    let s = folder.push(0x5c) + name;
    let n = folder.len() as int;
    assert(s[0] == folder[0] && s[1] == folder[1] && s[2] == folder[2]);
    assert(name.len() > 0 ==> name[0] != 0x5c && name[0] != 0x2f);
    assert(name.len() > 1 ==> name[1] != 0x3a);
    assert forall|i: int| n + 1 <= i < s.len() implies !is_sep(#[trigger] s[i]) by {
        assert(s[i] == name[i - n - 1]);
    }
    assert(s[n] == 0x5c);
    lemma_last_piece_at(s, 3, n + 1, s.len() as int);
    assert(s.subrange(n + 1, s.len() as int) =~= name);
    assert(name[name.len() - 1] == name.last());
    assert(piece_component(name, false) == Some(Component::Normal(name)));
    assert(meaningful_end(s, 3, s.len() as int, false) == s.len());
    lemma_last_piece(s, 3, n, false);
    let p = last_piece(s, 3, n, false);
    assert(s[n - 1] == folder.last());
    assert(!splits(false, s[n - 1]));
    lemma_last_piece(s, 3, n - 1, false);
    let piece = s.subrange(p, n);
    assert(piece.len() > 0);
    assert(piece[piece.len() - 1] == folder.last());
    assert(piece_component(piece, false) is Some);
    assert(meaningful_end(s, 3, n, false) == n);
    assert(s.subrange(0, n) =~= folder);
}

proof fn lemma_piece_end_below(folder: Seq<u16>, name: Seq<u16>, from: int)
    requires
        0 <= from <= folder.len(),
    ensures
        piece_end(folder.push(0x5c) + name, from, false) == piece_end(folder, from, false),
    decreases folder.len() - from,
{
    let s = folder.push(0x5c) + name;
    if from < folder.len() {
        assert(s[from] == folder[from]);
        lemma_piece_end_below(folder, name, from + 1);
    } else {
        assert(s[from] == 0x5c);
    }
}

proof fn lemma_piece_end_last(s: Seq<u16>, from: int)
    requires
        0 <= from <= s.len(),
        forall|i: int| from <= i < s.len() ==> !is_sep(#[trigger] s[i]),
    ensures
        piece_end(s, from, false) == s.len(),
    decreases s.len() - from,
{
    if from < s.len() {
        lemma_piece_end_last(s, from + 1);
    }
}

proof fn lemma_body_below(folder: Seq<u16>, name: Seq<u16>, from: int)
    requires
        plain_name(name),
        0 <= from <= folder.len(),
    ensures
        ({
            let s = folder.push(0x5c) + name;
            let body = body_components(folder, from, false);
            &&& body_components(s, from, false) == body.push(Component::Normal(name))
            &&& rest_start(s, from, body.len(), false) == folder.len() + 1
        }),
    decreases folder.len() - from,
{
    let s = folder.push(0x5c) + name;
    let n = folder.len() as int;
    let body = body_components(folder, from, false);
    assert forall|i: int| n + 1 <= i < s.len() implies !is_sep(#[trigger] s[i]) by {
        assert(s[i] == name[i - n - 1]);
    }
    lemma_piece_end_last(s, n + 1);
    assert(s.subrange(n + 1, s.len() as int) =~= name);
    assert(piece_component(name, false) == Some(Component::Normal(name)));
    assert(body_components(s, s.len() as int, false) =~= Seq::<Component>::empty());
    assert(body_components(s, n + 1, false) =~= seq![Component::Normal(name)]);
    assert(rest_start(s, n + 1, 0, false) == n + 1);
    lemma_piece_end_below(folder, name, from);
    lemma_piece_end(folder, from, false);
    let end = piece_end(folder, from, false);
    if from < n {
        assert(s.subrange(from, end) =~= folder.subrange(from, end));
        if end < n {
            lemma_body_below(folder, name, end + 1);
        } else {
            assert(body_components(folder, n, false) =~= Seq::<Component>::empty());
        }
    } else {
        assert(s[n] == 0x5c);
        assert(s.subrange(n, n) =~= Seq::<u16>::empty());
    }
    assert(body_components(s, from, false) =~= body.push(Component::Normal(name)));
}

pub proof fn lemma_lies_below(folder: Seq<u16>, name: Seq<u16>)
    requires
        plain_folder(folder),
        plain_name(name),
    ensures
        path_starts_with(folder.push(0x5c) + name, folder),
{
    let s = folder.push(0x5c) + name;
    lemma_below(folder, name);
    lemma_body_below(folder, name, 3);
    assert(components(s) =~= components(folder).push(Component::Normal(name)));
    assert(components(folder) =~= components(s).subrange(0, components(folder).len() as int));
}

/// A name joined to a folder stands behind it, after one separator; its last component is the name,
/// its parent is the folder, it lies below the folder, and what it is there is the name.
pub proof fn law_a_joined_name_lies_in_its_folder(
    folder: &[u16],
    name: &[u16],
    path: Vec<u16>,
    whole: &[u16],
    found: Option<Vec<u16>>,
    parent: Option<Vec<u16>>,
    below: bool,
    above: bool,
    rest: Option<Vec<u16>>,
)
    requires
        plain_folder(folder@),
        plain_name(name@),
        call_ensures(join, (folder, name), path),
        whole@ == path@,
        call_ensures(file_name_of, (whole,), found),
        call_ensures(parent_of, (whole,), parent),
        call_ensures(starts_with_path, (whole, folder), below),
        call_ensures(starts_with_path, (folder, whole), above),
        call_ensures(strip_prefix_of, (whole, folder), rest),
    ensures
        path@ == folder@.push(0x5c) + name@,
        found is Some && found->0@ == name@,
        parent is Some && parent->0@ == folder@,
        below && !above,
        rest is Some && rest->0@ == name@,
{
    let s = folder@.push(0x5c) + name@;
    lemma_below(folder@, name@);
    lemma_body_below(folder@, name@, 3);
    let head = head_components(s);
    let body = body_components(folder@, 3, false);
    assert(components(s) =~= components(folder@).push(Component::Normal(name@)));
    assert(components(folder@) =~= components(s).subrange(0, components(folder@).len() as int));
    let count = components(folder@).len() as int;
    assert(head.len() == 2);
    assert(head.last() is RootDir);
    if count == 2 {
        assert(body.len() == 0);
    }
    assert(path_after(s, count) =~= name@);
}

/// Two names in one folder are one path exactly where they are the same name, and neither is the
/// folder.
pub proof fn law_paths_are_equal_by_their_names(
    folder: &[u16],
    first: &[u16],
    second: &[u16],
    a: Vec<u16>,
    b: Vec<u16>,
    one: &[u16],
    other: &[u16],
    equal: bool,
    with_folder: bool,
)
    requires
        plain_folder(folder@),
        plain_name(first@),
        plain_name(second@),
        call_ensures(join, (folder, first), a),
        call_ensures(join, (folder, second), b),
        one@ == a@,
        other@ == b@,
        call_ensures(path_eq, (one, other), equal),
        call_ensures(path_eq, (one, folder), with_folder),
    ensures
        equal <==> first@ == second@,
        !with_folder,
{
    lemma_below(folder@, first@);
    lemma_below(folder@, second@);
    lemma_body_below(folder@, first@, 3);
    lemma_body_below(folder@, second@, 3);
    let p = components(folder@);
    assert(components(a@) =~= p.push(Component::Normal(first@)));
    assert(components(b@) =~= p.push(Component::Normal(second@)));
    assert(p.push(Component::Normal(first@)).last() == Component::Normal(first@));
    assert(p.push(Component::Normal(second@)).last() == Component::Normal(second@));
    assert(p.push(Component::Normal(first@)).len() == p.len() + 1);
}

proof fn lemma_last_dot_at(stem: Seq<u16>, extension: Seq<u16>)
    requires
        forall|i: int| 0 <= i < extension.len() ==> #[trigger] extension[i] != 0x2e,
    ensures
        last_dot(stem.push(0x2e) + extension) == stem.len(),
    decreases extension.len(),
{
    let name = stem.push(0x2e) + extension;
    if extension.len() > 0 {
        assert(name.last() == extension.last());
        assert(extension[extension.len() - 1] != 0x2e);
        assert(name.drop_last() =~= stem.push(0x2e) + extension.drop_last());
        lemma_last_dot_at(stem, extension.drop_last());
    } else {
        assert(name =~= stem.push(0x2e));
    }
}

pub proof fn lemma_no_dot(name: Seq<u16>)
    requires
        !name.contains(0x2e),
    ensures
        last_dot(name) == -1,
    decreases name.len(),
{
    if name.len() > 0 {
        assert(name[name.len() - 1] != 0x2e);
        assert forall|i: int| 0 <= i < name.drop_last().len() implies name.drop_last()[i] != 0x2e by {
            assert(name[i] == name.drop_last()[i]);
        }
        lemma_no_dot(name.drop_last());
    }
}

/// A name is its stem, a dot and its extension, the last dot being the one that counts; another
/// extension takes the place of the old one and leaves the rest of the path as it is.
pub proof fn law_an_extension_is_replaced(
    folder: Seq<u16>,
    stem: Seq<u16>,
    extension: Seq<u16>,
    new: &[u16],
    path: &[u16],
    found_stem: Option<Vec<u16>>,
    found: Option<Vec<u16>>,
    changed: Vec<u16>,
)
    requires
        plain_folder(folder),
        stem.len() > 0,
        extension.len() > 0,
        plain_name(stem.push(0x2e) + extension),
        forall|i: int| 0 <= i < extension.len() ==> #[trigger] extension[i] != 0x2e,
        path@ == folder.push(0x5c) + (stem.push(0x2e) + extension),
        call_ensures(file_stem_of, (path,), found_stem),
        call_ensures(extension_of, (path,), found),
        call_ensures(set_extension_of, (path, new), changed),
    ensures
        found_stem is Some && found_stem->0@ == stem,
        found is Some && found->0@ == extension,
        new@.len() > 0 ==> changed@ == folder.push(0x5c) + (stem.push(0x2e) + new@),
        new@.len() == 0 ==> changed@ == folder.push(0x5c) + stem,
{
    let name = stem.push(0x2e) + extension;
    lemma_below(folder, name);
    lemma_last_dot_at(stem, extension);
    assert(name.subrange(0, stem.len() as int) =~= stem);
    assert(name.subrange(stem.len() as int + 1, name.len() as int) =~= extension);
    let kept = path@.subrange(0, folder.len() as int + 1 + stem.len());
    assert(kept =~= folder.push(0x5c) + stem);
    if new@.len() > 0 {
        assert(kept.push(0x2e) + new@ =~= folder.push(0x5c) + (stem.push(0x2e) + new@));
    }
}

/// A path that names its own drive or root replaces the folder that it is joined to.
pub proof fn law_a_whole_path_replaces_the_folder(folder: &[u16], added: &[u16], path: Vec<u16>)
    requires
        call_ensures(join, (folder, added), path),
    ensures
        plain_folder(added@) ==> path@ == added@,
        plain_folder(folder@) && added@.len() > 1 && added@[0] == 0x5c && added@[1] != 0x5c
            && added@[1] != 0x2f ==> path@ == seq![folder@[0], folder@[1]] + added@,
{
    if plain_folder(folder@) && added@.len() > 1 && added@[0] == 0x5c && added@[1] != 0x5c
        && added@[1] != 0x2f {
        assert(folder@.subrange(0, 2) =~= seq![folder@[0], folder@[1]]);
    }
}

/// From a position on, both hold the same, but for which separators they use.
spec fn same_from(s: Seq<u16>, t: Seq<u16>, from: int) -> bool {
    s.len() == t.len() && forall|i: int|
        from <= i < s.len() ==> #[trigger] s[i] == t[i] || (is_sep(s[i]) && is_sep(t[i]))
}

proof fn lemma_same_piece_end(s: Seq<u16>, t: Seq<u16>, from: int)
    requires
        0 <= from,
        same_from(s, t, from),
    ensures
        piece_end(s, from, false) == piece_end(t, from, false),
        forall|i: int|
            from <= i < piece_end(s, from, false) ==> !is_sep(#[trigger] s[i]) && s[i] == t[i],
    decreases s.len() - from,
{
    if from < s.len() {
        assert(s[from] == t[from] || (is_sep(s[from]) && is_sep(t[from])));
        if !is_sep(s[from]) {
            lemma_same_piece_end(s, t, from + 1);
        }
    }
}

proof fn lemma_same_body(s: Seq<u16>, t: Seq<u16>, from: int)
    requires
        0 <= from,
        same_from(s, t, from),
    ensures
        body_components(s, from, false) == body_components(t, from, false),
    decreases s.len() - from,
{
    if from < s.len() {
        lemma_same_piece_end(s, t, from);
        lemma_piece_end(s, from, false);
        let end = piece_end(s, from, false);
        assert(s.subrange(from, end) =~= t.subrange(from, end));
        lemma_same_body(s, t, after_piece(s, end));
    }
}

/// A path below a drive is the same in whichever case its drive letter and with whichever separators it
/// is written; every other unit counts.
pub proof fn law_separators_are_written_either_way(
    one: &[u16],
    other: &[u16],
    equal: bool,
    there: bool,
    back: bool,
)
    requires
        one@.len() >= 3 && other@.len() == one@.len(),
        0x61 <= one@[0] <= 0x7a,
        other@[0] == one@[0] || other@[0] + 0x20 == one@[0],
        one@[1] == 0x3a && other@[1] == 0x3a,
        one@[2] == 0x5c && (other@[2] == 0x5c || other@[2] == 0x2f),
        forall|i: int|
            3 <= i < one@.len() ==> #[trigger] one@[i] == other@[i] || (one@[i] == 0x5c && other@[i]
                == 0x2f),
        call_ensures(path_eq, (one, other), equal),
        call_ensures(starts_with_path, (one, other), there),
        call_ensures(starts_with_path, (other, one), back),
    ensures
        equal && there && back,
{
    lemma_same_body(one@, other@, 3);
    assert(prefix_of(one@) == prefix_of(other@));
    assert(head_components(one@) =~= head_components(other@));
    assert(components(one@) == components(other@));
    let c = components(one@);
    assert(c.subrange(0, c.len() as int) =~= c);
}

proof fn lemma_body_at_end(folder: Seq<u16>, piece: Seq<u16>, from: int)
    requires
        forall|i: int| 0 <= i < piece.len() ==> !is_sep(#[trigger] piece[i]),
        0 <= from <= folder.len(),
    ensures
        ({
            let body = body_components(folder, from, false);
            body_components(folder.push(0x5c) + piece, from, false) == match piece_component(
                piece,
                false,
            ) {
                Some(component) => body.push(component),
                None => body,
            }
        }),
    decreases folder.len() - from,
{
    let s = folder.push(0x5c) + piece;
    let n = folder.len() as int;
    let body = body_components(folder, from, false);
    assert forall|i: int| n + 1 <= i < s.len() implies !is_sep(#[trigger] s[i]) by {
        assert(s[i] == piece[i - n - 1]);
    }
    lemma_piece_end_last(s, n + 1);
    assert(s.subrange(n + 1, s.len() as int) =~= piece);
    assert(body_components(s, s.len() as int, false) =~= Seq::<Component>::empty());
    assert(body_components(s, n + 1, false) =~= match piece_component(piece, false) {
        Some(component) => seq![component],
        None => Seq::empty(),
    });
    lemma_piece_end_below(folder, piece, from);
    lemma_piece_end(folder, from, false);
    let end = piece_end(folder, from, false);
    if from < n {
        assert(s.subrange(from, end) =~= folder.subrange(from, end));
        if end < n {
            lemma_body_at_end(folder, piece, end + 1);
        } else {
            assert(body_components(folder, n, false) =~= Seq::<Component>::empty());
        }
    } else {
        assert(s[n] == 0x5c);
        assert(s.subrange(n, n) =~= Seq::<u16>::empty());
    }
    assert(body_components(s, from, false) =~= match piece_component(piece, false) {
        Some(component) => body.push(component),
        None => body,
    });
}

/// A separator more and a dot of its own change nothing about a path; two dots do.
pub proof fn law_dots_are_passed_over(
    folder: &[u16],
    closed: &[u16],
    dotted: &[u16],
    climbing: &[u16],
    closed_equal: bool,
    dotted_equal: bool,
    climbing_equal: bool,
)
    requires
        plain_folder(folder@),
        closed@ == folder@.push(0x5c),
        dotted@ == folder@.push(0x5c).push(0x2e),
        climbing@ == folder@.push(0x5c).push(0x2e).push(0x2e),
        call_ensures(path_eq, (folder, closed), closed_equal),
        call_ensures(path_eq, (folder, dotted), dotted_equal),
        call_ensures(path_eq, (folder, climbing), climbing_equal),
    ensures
        closed_equal,
        dotted_equal,
        !climbing_equal,
{
    let none = Seq::<u16>::empty();
    let dot = seq![0x2eu16];
    let dots = seq![0x2eu16, 0x2e];
    assert(closed@ =~= folder@.push(0x5c) + none);
    assert(dotted@ =~= folder@.push(0x5c) + dot);
    assert(climbing@ =~= folder@.push(0x5c) + dots);
    lemma_body_at_end(folder@, none, 3);
    lemma_body_at_end(folder@, dot, 3);
    lemma_body_at_end(folder@, dots, 3);
    assert(piece_component(dots, false) == Some(Component::ParentDir));
    assert(head_components(closed@) =~= head_components(folder@));
    assert(head_components(dotted@) =~= head_components(folder@));
    assert(head_components(climbing@) =~= head_components(folder@));
    assert(components(climbing@) =~= components(folder@).push(Component::ParentDir));
    assert(components(climbing@).len() == components(folder@).len() + 1);
}

} // verus!
