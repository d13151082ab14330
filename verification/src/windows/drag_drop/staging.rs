//! Files that a drop has to copy aside before it returns.
use vstd::prelude::*;

use crate::bytes;
use crate::bytes::{read_u32, read_units};
use crate::errors;
use crate::errors::{ErrorKind, IoError};
use crate::text;
use crate::text::{decode_lossy, decode_strict, encode_chars, lower_char, str_chars, utf8_text};
use crate::wide;
use crate::wide::take_before_nul;
use crate::winpath;
use crate::winpath::{
    file_name_of, join, parent_of, path_components, path_eq, starts_with_path, strip_prefix_of,
    units_copy_all, PathComponent,
};
use crate::windows::drag_drop::effects;
use crate::windows::drag_drop::effects::path_text;

verus! {

/// The text without the backslashes at its end.
pub open spec fn without_trailing_backslashes(chars: Seq<char>) -> Seq<char>
    decreases chars.len(),
{
    if chars.len() > 0 && chars.last() == '\\' {
        without_trailing_backslashes(chars.drop_last())
    } else {
        chars
    }
}

/// The text without the backslashes at its start.
pub open spec fn without_leading_backslashes(chars: Seq<char>) -> Seq<char>
    decreases chars.len(),
{
    if chars.len() > 0 && chars[0] == '\\' {
        without_leading_backslashes(chars.subrange(1, chars.len() as int))
    } else {
        chars
    }
}

/// What follows the temporary directory in the text of a path, compared up to ASCII capitals.
pub open spec fn below_temp(path: Seq<u16>, temp: Seq<u16>) -> Option<Seq<char>> {
    let t = without_trailing_backslashes(effects::backslash_text(temp));
    let p = effects::backslash_text(path);
    if p.len() > t.len() && text::ascii_lower_text(p.subrange(0, t.len() as int))
        == text::ascii_lower_text(t) {
        let rest = without_leading_backslashes(p.subrange(t.len() as int, p.len() as int));
        if rest.len() > 0 {
            Some(rest)
        } else {
            None
        }
    } else {
        None
    }
}

pub open spec fn all_ephemeral(paths: Seq<Seq<u16>>, temp: Seq<u16>) -> bool {
    paths.len() > 0 && forall|i: int|
        0 <= i < paths.len() ==> below_temp(#[trigger] paths[i], temp) is Some
}

/// Whether the path lies below the temporary directory.
pub fn is_under_user_temp(path: &[u16], temp: &[u16]) -> (under: bool)
    ensures
        under == (below_temp(path@, temp@) is Some),
{
    let mut t = path_text(temp);
    while t.len() > 0 && t[t.len() - 1] == '\\'
        invariant
            without_trailing_backslashes(effects::backslash_text(temp@))
                == without_trailing_backslashes(t@),
        decreases t@.len(),
    {
        assert(t@.drop_last() =~= t@.subrange(0, t@.len() - 1));
        let _ = t.pop();
    }
    let p = path_text(path);
    let n: usize = t.len();
    if p.len() <= n {
        return false;
    }
    let ghost head = p@.subrange(0, n as int);
    let mut i: usize = 0;
    while i < n
        invariant
            i <= n,
            n == t@.len(),
            n < p@.len(),
            p@ == effects::backslash_text(path@),
            t@ == without_trailing_backslashes(effects::backslash_text(temp@)),
            head == p@.subrange(0, n as int),
            forall|j: int|
                0 <= j < i ==> text::lower_char_spec(#[trigger] p@[j]) == text::lower_char_spec(
                    t@[j],
                ),
        decreases n - i,
    {
        if lower_char(p[i]) != lower_char(t[i]) {
            assert(text::ascii_lower_text(head)[i as int] != text::ascii_lower_text(t@)[i as int]);
            return false;
        }
        i += 1;
    }
    assert(text::ascii_lower_text(head) =~= text::ascii_lower_text(t@));
    let mut at: usize = n;
    let ghost rest = p@.subrange(n as int, p@.len() as int);
    while at < p.len() && p[at] == '\\'
        invariant
            n <= at <= p@.len(),
            without_leading_backslashes(rest) == without_leading_backslashes(
                p@.subrange(at as int, p@.len() as int),
            ),
        decreases p@.len() - at,
    {
        proof {
            let now = p@.subrange(at as int, p@.len() as int);
            assert(now.subrange(1, now.len() as int) =~= p@.subrange(at + 1, p@.len() as int));
        }
        at += 1;
    }
    proof {
        let now = p@.subrange(at as int, p@.len() as int);
        assert(without_leading_backslashes(now) == now);
    }
    at < p.len()
}

/// Whether every path lies below the temporary directory, and there is one.
pub fn is_ephemeral_drop(paths: &[Vec<u16>], temp: &[u16]) -> (ephemeral: bool)
    ensures
        ephemeral == all_ephemeral(winpath::path_views(paths@), temp@),
{
    if paths.len() == 0 {
        return false;
    }
    let mut i: usize = 0;
    while i < paths.len()
        invariant
            i <= paths@.len(),
            forall|j: int|
                0 <= j < i ==> below_temp(#[trigger] winpath::path_views(paths@)[j], temp@) is Some,
        decreases paths@.len() - i,
    {
        let under = is_under_user_temp(paths[i].as_slice(), temp);
        assert(under == (below_temp(winpath::path_views(paths@)[i as int], temp@) is Some));
        if !under {
            return false;
        }
        i += 1;
    }
    true
}

// ---- the common parent of temporary files ----

/// The closest ancestor of `parent`, itself included, that `path` lies in.
pub open spec fn climbed(parent: Seq<u16>, path: Seq<u16>) -> Option<Seq<u16>>
    decreases parent.len(),
{
    if winpath::path_starts_with(path, parent) {
        Some(parent)
    } else {
        proof {
            winpath::lemma_parent_is_shorter(parent);
        }
        match winpath::path_parent(parent) {
            Some(above) => climbed(above, path),
            None => None,
        }
    }
}

/// The parent of the first path, taken up until the first `n` paths lie in it.
pub open spec fn common_parent_of(paths: Seq<Seq<u16>>, n: int) -> Option<Seq<u16>>
    decreases n,
{
    if n <= 1 {
        winpath::path_parent(paths[0])
    } else {
        match common_parent_of(paths, n - 1) {
            Some(parent) => climbed(parent, paths[n - 1]),
            None => None,
        }
    }
}

fn climb(parent: Vec<u16>, path: &[u16]) -> (found: Option<Vec<u16>>)
    ensures
        found is Some <==> climbed(parent@, path@) is Some,
        found matches Some(found) ==> climbed(parent@, path@) == Some(found@),
{
    let mut at = parent;
    while !starts_with_path(path, at.as_slice())
        invariant
            climbed(parent@, path@) == climbed(at@, path@),
        decreases at@.len(),
    {
        match parent_of(at.as_slice()) {
            Some(above) => {
                at = above;
            },
            None => {
                return None;
            },
        }
    }
    Some(at)
}

pub fn common_parent(paths: &[Vec<u16>]) -> (parent: Option<Vec<u16>>)
    ensures
        ({
            let common = common_parent_of(winpath::path_views(paths@), paths@.len() as int);
            &&& parent is Some <==> paths@.len() > 0 && common is Some
            &&& parent matches Some(parent) ==> common == Some(parent@)
        }),
{
    if paths.len() == 0 {
        return None;
    }
    let ghost views = winpath::path_views(paths@);
    assert(views[0] == paths@[0]@);
    let mut parent = match parent_of(paths[0].as_slice()) {
        Some(parent) => parent,
        None => {
            proof {
                lemma_no_common_parent(views, 1, paths@.len() as int);
            }
            return None;
        },
    };
    let mut i: usize = 1;
    while i < paths.len()
        invariant
            1 <= i <= paths@.len(),
            views == winpath::path_views(paths@),
            common_parent_of(views, i as int) == Some(parent@),
        decreases paths@.len() - i,
    {
        assert(views[i as int] == paths@[i as int]@);
        match climb(parent, paths[i].as_slice()) {
            Some(above) => {
                parent = above;
            },
            None => {
                proof {
                    lemma_no_common_parent(views, i + 1, paths@.len() as int);
                }
                return None;
            },
        }
        i += 1;
    }
    Some(parent)
}

proof fn lemma_no_common_parent(paths: Seq<Seq<u16>>, n: int, m: int)
    requires
        1 <= n <= m,
        common_parent_of(paths, n) is None,
    ensures
        common_parent_of(paths, m) is None,
    decreases m - n,
{
    if n < m {
        lemma_no_common_parent(paths, n + 1, m);
    }
}

/// The paths below their common parent, or why there are none.
pub open spec fn relatives(paths: Seq<Seq<u16>>) -> Result<Seq<Seq<u16>>, Seq<char>> {
    let common = common_parent_of(paths, paths.len() as int);
    if paths.len() == 0 || common is None {
        Err("temporary drop has no common parent"@)
    } else if exists|i: int|
        0 <= i < paths.len() && winpath::stripped(#[trigger] paths[i], common->0) is None {
        Err("temporary drop item is outside its parent"@)
    } else {
        Ok(Seq::new(paths.len(), |i: int| winpath::stripped(paths[i], common->0)->0))
    }
}

pub fn relatives_under_common_parent(paths: &[Vec<u16>]) -> (found: Result<Vec<Vec<u16>>, IoError>)
    ensures
        match relatives(winpath::path_views(paths@)) {
            Ok(expected) => found is Ok && winpath::path_views(found->Ok_0@) == expected,
            Err(message) => found is Err && errors::fails_with(
                found->Err_0,
                ErrorKind::InvalidInput,
                message,
            ),
        },
{
    let ghost views = winpath::path_views(paths@);
    match common_parent(paths) {
        None => Err(
            IoError::new(ErrorKind::InvalidInput, "temporary drop has no common parent"),
        ),
        Some(parent) => {
            let mut found: Vec<Vec<u16>> = Vec::new();
            let mut i: usize = 0;
            while i < paths.len()
                invariant
                    i <= paths@.len(),
                    paths@.len() > 0,
                    views == winpath::path_views(paths@),
                    common_parent_of(views, views.len() as int) == Some(parent@),
                    found@.len() == i,
                    forall|j: int|
                        0 <= j < i ==> winpath::stripped(#[trigger] views[j], parent@) == Some(
                            found@[j]@,
                        ),
                decreases paths@.len() - i,
            {
                assert(views[i as int] == paths@[i as int]@);
                match strip_prefix_of(paths[i].as_slice(), parent.as_slice()) {
                    Some(rest) => {
                        found.push(rest);
                    },
                    None => {
                        assert(winpath::stripped(views[i as int], parent@) is None);
                        return Err(
                            IoError::new(
                                ErrorKind::InvalidInput,
                                "temporary drop item is outside its parent",
                            ),
                        );
                    },
                }
                i += 1;
            }
            proof {
                assert(forall|j: int|
                    0 <= j < views.len() ==> winpath::stripped(#[trigger] views[j], parent@) is Some);
                assert(winpath::path_views(found@) =~= relatives(views)->Ok_0);
            }
            Ok(found)
        },
    }
}

// ---- the top level of what was copied ----

/// The first name among the components from one on.
pub open spec fn first_name(parts: Seq<winpath::Component>, from: int) -> Option<Seq<u16>>
    decreases parts.len() - from,
{
    if from >= parts.len() {
        None
    } else {
        match parts[from] {
            winpath::Component::Normal(name) => Some(name),
            _ => first_name(parts, from + 1),
        }
    }
}

pub open spec fn has_path(paths: Seq<Seq<u16>>, path: Seq<u16>) -> bool {
    exists|i: int| 0 <= i < paths.len() && winpath::same_path(#[trigger] paths[i], path)
}

/// The entries directly below the root that hold the relative paths, each once.
pub open spec fn top_level(root: Seq<u16>, relatives: Seq<Seq<u16>>) -> Seq<Seq<u16>>
    decreases relatives.len(),
{
    if relatives.len() == 0 {
        Seq::empty()
    } else {
        let before = top_level(root, relatives.drop_last());
        match first_name(winpath::components(relatives.last()), 0) {
            Some(name) => {
                let path = winpath::joined(root, name);
                if has_path(before, path) {
                    before
                } else {
                    before.push(path)
                }
            },
            None => before,
        }
    }
}

fn find_first_name(path: &[u16]) -> (name: Option<Vec<u16>>)
    ensures
        name is Some <==> first_name(winpath::components(path@), 0) is Some,
        name matches Some(name) ==> first_name(winpath::components(path@), 0) == Some(name@),
{
    let parts = path_components(path);
    let ghost all = winpath::components(path@);
    assert(all.len() == parts@.len());
    let mut i: usize = 0;
    while i < parts.len()
        invariant
            i <= parts@.len(),
            all == winpath::components(path@),
            all == winpath::denoted(parts@, winpath::prefix_of(path@)),
            first_name(all, 0) == first_name(all, i as int),
        decreases parts@.len() - i,
    {
        assert(all[i as int] == parts@[i as int].denotes(winpath::prefix_of(path@)));
        match &parts[i] {
            PathComponent::Normal(name) => {
                return Some(units_copy_all(name.as_slice()));
            },
            _ => {},
        }
        i += 1;
    }
    None
}

fn path_is_among(paths: &Vec<Vec<u16>>, path: &[u16]) -> (among: bool)
    ensures
        among == has_path(winpath::path_views(paths@), path@),
{
    let mut i: usize = 0;
    while i < paths.len()
        invariant
            i <= paths@.len(),
            forall|j: int|
                0 <= j < i ==> !winpath::same_path(
                    #[trigger] winpath::path_views(paths@)[j],
                    path@,
                ),
        decreases paths@.len() - i,
    {
        let same = path_eq(paths[i].as_slice(), path);
        assert(same == winpath::same_path(winpath::path_views(paths@)[i as int], path@));
        if same {
            return true;
        }
        i += 1;
    }
    false
}

pub fn top_level_paths(root: &[u16], relatives: &[Vec<u16>]) -> (paths: Vec<Vec<u16>>)
    ensures
        winpath::path_views(paths@) == top_level(root@, winpath::path_views(relatives@)),
{
    let mut paths: Vec<Vec<u16>> = Vec::new();
    let ghost views = winpath::path_views(relatives@);
    let mut i: usize = 0;
    assert(winpath::path_views(paths@) =~= Seq::<Seq<u16>>::empty());
    while i < relatives.len()
        invariant
            i <= relatives@.len(),
            views == winpath::path_views(relatives@),
            winpath::path_views(paths@) == top_level(root@, views.subrange(0, i as int)),
        decreases relatives@.len() - i,
    {
        proof {
            let next = views.subrange(0, i + 1);
            assert(next.drop_last() =~= views.subrange(0, i as int));
            assert(next.last() == relatives@[i as int]@);
        }
        match find_first_name(relatives[i].as_slice()) {
            Some(name) => {
                let path = join(root, name.as_slice());
                if !path_is_among(&paths, path.as_slice()) {
                    let ghost before = paths@;
                    paths.push(path);
                    assert(winpath::path_views(paths@) =~= winpath::path_views(before).push(path@));
                }
            },
            None => {},
        }
        i += 1;
    }
    assert(views.subrange(0, i as int) =~= views);
    paths
}

/// A drop that was copied aside lists each entry of its scratch directory once.
pub proof fn law_top_level_has_no_repeats(root: Seq<u16>, relatives: Seq<Seq<u16>>, i: int, j: int)
    requires
        0 <= i < j < top_level(root, relatives).len(),
    ensures
        !winpath::same_path(top_level(root, relatives)[i], top_level(root, relatives)[j]),
    decreases relatives.len(),
{
    let before = top_level(root, relatives.drop_last());
    let all = top_level(root, relatives);
    if j < before.len() {
        law_top_level_has_no_repeats(root, relatives.drop_last(), i, j);
    } else {
        assert(all[i] == before[i]);
    }
}

// ---- the scratch directory ----

/// Whether a directory is a scratch directory of a drop and may be deleted: it has the name of one
/// and lies below the temporary directory.
pub open spec fn is_scratch(root: Seq<u16>, temp: Seq<u16>) -> bool {
    &&& winpath::path_name(root) matches Some(name) && text::valid_utf16(name)
        && "asterfiles-incoming-"@.is_prefix_of(text::utf16_lossy(name))
    &&& below_temp(root, temp) is Some
}

pub fn owns_drop_staging(root: &[u16], temp: &[u16]) -> (owned: bool)
    ensures
        owned == is_scratch(root@, temp@),
{
    let name = match file_name_of(root) {
        Some(name) => name,
        None => {
            return false;
        },
    };
    let chars = match decode_strict(name.as_slice()) {
        Some(chars) => chars,
        None => {
            return false;
        },
    };
    let wanted = str_chars("asterfiles-incoming-");
    if chars.len() < wanted.len() {
        return false;
    }
    let named = text::chars_eq(
        vstd::slice::slice_subrange(chars.as_slice(), 0, wanted.len()),
        wanted.as_slice(),
    );
    named && is_under_user_temp(root, temp)
}

/// The name of the scratch directory that a process gives its `count`-th drop.
pub fn incoming_root_name(process: u32, count: u64) -> (name: String)
    ensures
        name@ == "asterfiles-incoming-"@ + text::decimal(process as nat) + "-"@ + text::decimal(
            count as nat,
        ),
{
    let mut name = String::new();
    text::push_text(&mut name, "asterfiles-incoming-");
    text::push_decimal(&mut name, process as u64);
    text::push_text(&mut name, "-");
    text::push_decimal(&mut name, count);
    assert(name@ =~= "asterfiles-incoming-"@ + text::decimal(process as nat) + "-"@
        + text::decimal(count as nat));
    name
}

// ---- descriptors of virtual files ----

pub const FD_ATTRIBUTES: u32 = 0x4;

pub const FILE_ATTRIBUTE_DIRECTORY: u32 = 0x10;

pub const DESCRIPTOR_NAME_OFFSET: usize = 72;

pub const WIDE_DESCRIPTOR_SIZE: usize = 592;

pub const ANSI_DESCRIPTOR_SIZE: usize = 332;

#[derive(Debug, Clone, PartialEq, Eq)]
pub struct VirtualEntry {
    pub relative: Vec<u16>,
    pub is_dir: bool,
}

/// A virtual file as a value.
pub struct Entry {
    pub relative: Seq<u16>,
    pub is_dir: bool,
}

impl View for VirtualEntry {
    type V = Entry;

    open spec fn view(&self) -> Entry {
        Entry { relative: self.relative@, is_dir: self.is_dir }
    }
}

pub open spec fn entries_of(raw: Seq<VirtualEntry>) -> Seq<Entry> {
    Seq::new(raw.len(), |i: int| raw[i]@)
}

pub open spec fn is_separator_char(c: char) -> bool {
    c == '\\' || c == '/'
}

pub open spec fn without_leading_separators(chars: Seq<char>) -> Seq<char>
    decreases chars.len(),
{
    if chars.len() > 0 && is_separator_char(chars[0]) {
        without_leading_separators(chars.subrange(1, chars.len() as int))
    } else {
        chars
    }
}

pub open spec fn without_trailing_separators(chars: Seq<char>) -> Seq<char>
    decreases chars.len(),
{
    if chars.len() > 0 && is_separator_char(chars.last()) {
        without_trailing_separators(chars.drop_last())
    } else {
        chars
    }
}

/// The names joined one after the other; nothing when a component is neither a name nor `.`.
pub open spec fn names_joined(parts: Seq<winpath::Component>) -> Option<Seq<u16>>
    decreases parts.len(),
{
    if parts.len() == 0 {
        Some(Seq::empty())
    } else {
        match (names_joined(parts.drop_last()), parts.last()) {
            (Some(before), winpath::Component::Normal(name)) => Some(
                winpath::joined(before, name),
            ),
            (Some(before), winpath::Component::CurDir) => Some(before),
            _ => None,
        }
    }
}

/// The relative path that a name of a virtual file stands for.
pub open spec fn relative_of(name: Seq<char>) -> Option<Seq<u16>> {
    let kept = without_trailing_separators(without_leading_separators(name));
    match names_joined(winpath::components(text::utf16_encoded(kept))) {
        Some(relative) => if kept.len() > 0 && relative.len() > 0 {
            Some(relative)
        } else {
            None
        },
        None => None,
    }
}

fn trim_separators(name: &[char]) -> (kept: Vec<char>)
    ensures
        kept@ == without_trailing_separators(without_leading_separators(name@)),
{
    let n: usize = name.len();
    let mut start: usize = 0;
    assert(name@.subrange(0, n as int) =~= name@);
    while start < n && (name[start] == '\\' || name[start] == '/')
        invariant
            start <= n,
            n == name@.len(),
            without_leading_separators(name@) == without_leading_separators(
                name@.subrange(start as int, n as int),
            ),
        decreases n - start,
    {
        proof {
            let now = name@.subrange(start as int, n as int);
            assert(now.subrange(1, now.len() as int) =~= name@.subrange(start + 1, n as int));
        }
        start += 1;
    }
    let mut end: usize = n;
    proof {
        let now = name@.subrange(start as int, n as int);
        assert(without_leading_separators(now) == now);
    }
    while start < end && (name[end - 1] == '\\' || name[end - 1] == '/')
        invariant
            start <= end <= n,
            n == name@.len(),
            without_trailing_separators(without_leading_separators(name@))
                == without_trailing_separators(name@.subrange(start as int, end as int)),
        decreases end,
    {
        proof {
            let now = name@.subrange(start as int, end as int);
            assert(now.drop_last() =~= name@.subrange(start as int, end - 1));
        }
        end -= 1;
    }
    proof {
        let now = name@.subrange(start as int, end as int);
        assert(without_trailing_separators(now) == now);
    }
    vstd::slice::slice_to_vec(vstd::slice::slice_subrange(name, start, end))
}

/// The relative path that a name of a virtual file stands for, if it is one.
pub fn safe_relative(name: &[char]) -> (relative: Option<Vec<u16>>)
    ensures
        relative is Some <==> relative_of(name@) is Some,
        relative matches Some(relative) ==> relative_of(name@) == Some(relative@),
{
    let kept = trim_separators(name);
    if kept.len() == 0 {
        return None;
    }
    let wide = encode_chars(kept.as_slice());
    let parts = path_components(wide.as_slice());
    let ghost prefix = winpath::prefix_of(wide@);
    let ghost all = winpath::components(wide@);
    assert(all.len() == parts@.len());
    let mut relative: Vec<u16> = Vec::new();
    let mut i: usize = 0;
    assert(relative@ =~= Seq::<u16>::empty());
    while i < parts.len()
        invariant
            i <= parts@.len(),
            prefix == winpath::prefix_of(wide@),
            all == winpath::components(wide@),
            all == winpath::denoted(parts@, prefix),
            names_joined(all.subrange(0, i as int)) == Some(relative@),
            kept@ == without_trailing_separators(without_leading_separators(name@)),
            wide@ == text::utf16_encoded(kept@),
        decreases parts@.len() - i,
    {
        proof {
            let next = all.subrange(0, i + 1);
            assert(next.drop_last() =~= all.subrange(0, i as int));
            assert(next.last() == parts@[i as int].denotes(prefix));
        }
        match &parts[i] {
            PathComponent::Normal(part) => {
                relative = join(relative.as_slice(), part.as_slice());
            },
            PathComponent::CurDir => {},
            _ => {
                proof {
                    lemma_names_stay_unjoined(all, i + 1);
                }
                return None;
            },
        }
        i += 1;
    }
    assert(all.subrange(0, i as int) =~= all);
    if relative.len() > 0 {
        Some(relative)
    } else {
        None
    }
}

proof fn lemma_names_stay_unjoined(parts: Seq<winpath::Component>, n: int)
    requires
        0 <= n <= parts.len(),
        names_joined(parts.subrange(0, n)) is None,
    ensures
        names_joined(parts) is None,
    decreases parts.len() - n,
{
    if n < parts.len() {
        assert(parts.subrange(0, n + 1).drop_last() =~= parts.subrange(0, n));
        lemma_names_stay_unjoined(parts, n + 1);
    } else {
        assert(parts.subrange(0, n) =~= parts);
    }
}

/// The bytes before the first zero.
pub open spec fn before_zero(b: Seq<u8>) -> Seq<u8>
    decreases b.len(),
{
    if b.len() == 0 || b[0] == 0 {
        Seq::empty()
    } else {
        seq![b[0]] + before_zero(b.subrange(1, b.len() as int))
    }
}

/// The text of bytes that are not valid UTF-8: one character for each.
pub open spec fn latin_text(b: Seq<u8>) -> Seq<char> {
    Seq::new(b.len(), |i: int| b[i] as char)
}

/// The name in a descriptor, as text.
pub open spec fn descriptor_name(descriptor: Seq<u8>, is_wide: bool) -> Seq<char> {
    if is_wide {
        text::utf16_lossy(wide::before_nul(bytes::units_in(descriptor.subrange(72, 592))))
    } else {
        let raw = before_zero(descriptor.subrange(72, 332));
        if vstd::utf8::valid_utf8(raw) {
            vstd::utf8::decode_utf8(raw)
        } else {
            latin_text(raw)
        }
    }
}

pub open spec fn descriptor_size(is_wide: bool) -> int {
    if is_wide {
        592
    } else {
        332
    }
}

/// What the descriptor at a position says, unless its name is not a relative path.
pub open spec fn entry_at(b: Seq<u8>, is_wide: bool, at: int) -> Option<Entry> {
    let descriptor = b.subrange(at, at + descriptor_size(is_wide));
    match relative_of(descriptor_name(descriptor, is_wide)) {
        Some(relative) => Some(
            Entry {
                relative,
                is_dir: effects::has_bits(bytes::le32(descriptor, 0), FD_ATTRIBUTES)
                    && effects::has_bits(bytes::le32(descriptor, 36), FILE_ATTRIBUTE_DIRECTORY),
            },
        ),
        None => None,
    }
}

/// The first `n` descriptors of a list all name relative paths.
pub open spec fn entries_readable(b: Seq<u8>, is_wide: bool, n: int) -> bool {
    forall|i: int|
        0 <= i < n ==> #[trigger] entry_at(b, is_wide, 4 + i * descriptor_size(is_wide)) is Some
}

/// The virtual files in a list of descriptors, or why the list is refused.
pub open spec fn listed_entries(b: Seq<u8>, is_wide: bool) -> Result<Seq<Entry>, Seq<char>> {
    if b.len() < 4 {
        Err("virtual file list is truncated"@)
    } else {
        let count = bytes::le32(b, 0) as int;
        let needed = count * descriptor_size(is_wide) + 4;
        if needed > usize::MAX {
            Err("virtual file list is too large"@)
        } else if b.len() < needed {
            Err("virtual file list is truncated"@)
        } else if !entries_readable(b, is_wide, count) {
            Err("virtual file name is not a relative path"@)
        } else {
            Ok(
                Seq::new(
                    count as nat,
                    |i: int| entry_at(b, is_wide, 4 + i * descriptor_size(is_wide))->0,
                ),
            )
        }
    }
}

fn take_before_zero(b: &[u8]) -> (kept: Vec<u8>)
    ensures
        kept@ == before_zero(b@),
{
    let mut kept: Vec<u8> = Vec::new();
    let mut i: usize = 0;
    let n: usize = b.len();
    assert(b@.subrange(0, n as int) =~= b@);
    while i < n && b[i] != 0
        invariant
            i <= n,
            n == b@.len(),
            before_zero(b@) == kept@ + before_zero(b@.subrange(i as int, n as int)),
        decreases n - i,
    {
        proof {
            let rest = b@.subrange(i as int, n as int);
            assert(rest.subrange(1, rest.len() as int) =~= b@.subrange(i + 1, n as int));
        }
        kept.push(b[i]);
        i += 1;
        assert(before_zero(b@) =~= kept@ + before_zero(b@.subrange(i as int, n as int)));
    }
    assert(kept@ =~= before_zero(b@));
    kept
}

fn latin_chars(b: &[u8]) -> (chars: Vec<char>)
    ensures
        chars@ == latin_text(b@),
{
    let mut chars: Vec<char> = Vec::new();
    let mut i: usize = 0;
    while i < b.len()
        invariant
            i <= b@.len(),
            chars@ == latin_text(b@).subrange(0, i as int),
        decreases b@.len() - i,
    {
        chars.push(b[i] as char);
        i += 1;
        assert(chars@ =~= latin_text(b@).subrange(0, i as int));
    }
    assert(chars@ =~= latin_text(b@));
    chars
}

fn read_descriptor_name(descriptor: &[u8], is_wide: bool) -> (name: Vec<char>)
    requires
        descriptor@.len() == descriptor_size(is_wide),
    ensures
        name@ == descriptor_name(descriptor@, is_wide),
{
    if is_wide {
        let units = read_units(descriptor, DESCRIPTOR_NAME_OFFSET, 260);
        let kept = take_before_nul(units.as_slice());
        decode_lossy(kept.as_slice())
    } else {
        let raw = take_before_zero(
            vstd::slice::slice_subrange(descriptor, DESCRIPTOR_NAME_OFFSET, 332),
        );
        match utf8_text(raw.as_slice()) {
            Some(decoded) => str_chars(decoded.as_str()),
            None => latin_chars(raw.as_slice()),
        }
    }
}

fn read_entry(b: &[u8], is_wide: bool, at: usize) -> (entry: Option<VirtualEntry>)
    requires
        at + descriptor_size(is_wide) <= b@.len(),
    ensures
        entry is Some <==> entry_at(b@, is_wide, at as int) is Some,
        entry matches Some(entry) ==> entry_at(b@, is_wide, at as int) == Some(entry@),
{
    let n: usize = b.len();
    let size: usize = if is_wide {
        WIDE_DESCRIPTOR_SIZE
    } else {
        ANSI_DESCRIPTOR_SIZE
    };
    let descriptor = vstd::slice::slice_subrange(b, at, at + size);
    let flags: u32 = read_u32(descriptor, 0);
    let attributes: u32 = read_u32(descriptor, 36);
    let is_dir = flags & FD_ATTRIBUTES != 0 && attributes & FILE_ATTRIBUTE_DIRECTORY != 0;
    let name = read_descriptor_name(descriptor, is_wide);
    match safe_relative(name.as_slice()) {
        Some(relative) => Some(VirtualEntry { relative, is_dir }),
        None => None,
    }
}

proof fn lemma_position_in_list(i: int, count: int, size: int)
    requires
        0 <= i < count,
        size > 0,
    ensures
        0 <= i * size,
        i * size + size <= count * size,
{
    assert(i * size + size <= count * size && 0 <= i * size) by (nonlinear_arith)
        requires
            0 <= i < count,
            size > 0,
    ;
}

/// Reads a list of descriptors, with names in UTF-16 or in bytes.
pub fn parse_descriptors(b: &[u8], is_wide: bool) -> (entries: Result<Vec<VirtualEntry>, IoError>)
    ensures
        match listed_entries(b@, is_wide) {
            Ok(expected) => entries is Ok && entries_of(entries->Ok_0@) == expected,
            Err(message) => entries is Err && errors::fails_with(
                entries->Err_0,
                ErrorKind::Other,
                message,
            ),
        },
{
    let n: usize = b.len();
    if n < 4 {
        return Err(IoError::new(ErrorKind::Other, "virtual file list is truncated"));
    }
    let size: usize = if is_wide {
        WIDE_DESCRIPTOR_SIZE
    } else {
        ANSI_DESCRIPTOR_SIZE
    };
    let count: u32 = read_u32(b, 0);
    let needed: u64 = (count as u64) * (size as u64) + 4;
    if needed > usize::MAX as u64 {
        return Err(IoError::new(ErrorKind::Other, "virtual file list is too large"));
    }
    if (n as u64) < needed {
        return Err(IoError::new(ErrorKind::Other, "virtual file list is truncated"));
    }
    let mut entries: Vec<VirtualEntry> = Vec::new();
    let mut i: u32 = 0;
    let mut at: usize = 4;
    while i < count
        invariant
            i <= count,
            n == b@.len(),
            size == descriptor_size(is_wide),
            at == 4 + i * descriptor_size(is_wide),
            count == bytes::le32(b@, 0),
            4 <= n,
            count * descriptor_size(is_wide) + 4 <= n,
            count * descriptor_size(is_wide) + 4 <= usize::MAX,
            entries@.len() == i,
            forall|j: int|
                #![trigger entry_at(b@, is_wide, 4 + j * descriptor_size(is_wide))]
                0 <= j < i ==> entry_at(b@, is_wide, 4 + j * descriptor_size(is_wide)) == Some(
                    entries@[j]@,
                ),
        decreases count - i,
    {
        proof {
            lemma_position_in_list(i as int, count as int, descriptor_size(is_wide));
            assert((i + 1) * descriptor_size(is_wide) == i * descriptor_size(is_wide)
                + descriptor_size(is_wide)) by (nonlinear_arith);
        }
        match read_entry(b, is_wide, at) {
            Some(entry) => {
                entries.push(entry);
            },
            None => {
                assert(entry_at(b@, is_wide, 4 + i * descriptor_size(is_wide)) is None);
                return Err(
                    IoError::new(ErrorKind::Other, "virtual file name is not a relative path"),
                );
            },
        }
        at = at + size;
        i += 1;
    }
    proof {
        assert(entries_readable(b@, is_wide, count as int));
        assert(entries_of(entries@) =~= listed_entries(b@, is_wide)->Ok_0);
    }
    Ok(entries)
}

// ---- laws of dropped files ----

/// Every descriptor of a list gives one file, in order: a folder exactly where its attributes are
/// given and say so, under the safe relative path of its name.
pub proof fn law_descriptors_are_read(
    b: &[u8],
    entries: Vec<VirtualEntry>,
    i: int,
    name: &[char],
    relative: Option<Vec<u16>>,
)
    requires
        call_ensures(parse_descriptors, (b, true), Ok(entries)),
        0 <= i < bytes::le32(b@, 0),
        name@ == text::utf16_lossy(
            wide::before_nul(
                bytes::units_in(b@.subrange(4 + 592 * i + 72, 4 + 592 * i + 592)),
            ),
        ),
        call_ensures(safe_relative, (name,), relative),
    ensures
        entries@.len() == bytes::le32(b@, 0),
        entries@[i].is_dir <==> bytes::le32(b@, 4 + 592 * i) & 4 != 0 && bytes::le32(
            b@,
            4 + 592 * i + 36,
        ) & 0x10 != 0,
        relative matches Some(safe) && entries@[i].relative@ == safe@,
{
    let at = 4 + 592 * i;
    let found = entries_of(entries@);
    assert(found.len() == entries@.len());
    assert(found[i] == entries@[i]@);
    assert(i * descriptor_size(true) == 592 * i);
    assert(entry_at(b@, true, 4 + i * descriptor_size(true)) is Some);
    let descriptor = b@.subrange(at, at + 592);
    let count = bytes::le32(b@, 0) as int;
    assert(592 * (i + 1) <= 592 * count) by (nonlinear_arith)
        requires
            i + 1 <= count,
    ;
    assert(bytes::le32(descriptor, 0) == bytes::le32(b@, at));
    assert(bytes::le32(descriptor, 36) == bytes::le32(b@, at + 36));
    assert(descriptor.subrange(72, 592) =~= b@.subrange(at + 72, at + 592));
}

/// A name that begins and ends with no separator is safe only where it holds nothing but names: it
/// neither climbs up nor begins at a root or a drive.
pub proof fn law_safe_names_never_climb(name: &[char], relative: Option<Vec<u16>>)
    requires
        name@.len() > 0,
        name@[0] != '\\' && name@[0] != '/',
        name@.last() != '\\' && name@.last() != '/',
        call_ensures(safe_relative, (name,), relative),
        relative is Some,
    ensures
        ({
            let parts = winpath::components(text::utf16_encoded(name@));
            forall|i: int|
                0 <= i < parts.len() ==> #[trigger] parts[i] is Normal || parts[i] is CurDir
        }),
        relative->0@.len() > 0,
{
    lemma_only_names(winpath::components(text::utf16_encoded(name@)));
}

proof fn lemma_only_names(parts: Seq<winpath::Component>)
    requires
        names_joined(parts) is Some,
    ensures
        forall|i: int| 0 <= i < parts.len() ==> #[trigger] parts[i] is Normal || parts[i] is CurDir,
    decreases parts.len(),
{
    if parts.len() > 0 {
        lemma_only_names(parts.drop_last());
        assert forall|i: int| 0 <= i < parts.len() implies #[trigger] parts[i] is Normal
            || parts[i] is CurDir by {
            if i < parts.len() - 1 {
                assert(parts.drop_last()[i] == parts[i]);
            }
        }
    }
}

proof fn lemma_backslash_concat(left: Seq<u16>, right: Seq<u16>)
    requires
        text::valid_utf16(left),
    ensures
        effects::backslash_text(left + right) == effects::backslash_text(left)
            + effects::backslash_text(right),
{
    text::lemma_lossy_concat(left, right);
    assert(effects::backslash_text(left + right) =~= effects::backslash_text(left)
        + effects::backslash_text(right));
}

/// What lies below the temporary folder is recognised there, and its owner may delete it only
/// where its name is that of a folder made for a drop.
pub proof fn law_temporary_files_are_recognised(
    temp: &[u16],
    rest: Seq<u16>,
    path: &[u16],
    under: bool,
    owned: bool,
)
    requires
        text::valid_utf16(temp@),
        effects::backslash_text(temp@).len() > 0 && effects::backslash_text(temp@).last() != '\\',
        effects::backslash_text(rest).len() > 0 && effects::backslash_text(rest)[0] != '\\',
        path@ == temp@ + (seq![0x5cu16] + rest),
        call_ensures(is_under_user_temp, (path, temp), under),
        call_ensures(owns_drop_staging, (path, temp), owned),
    ensures
        under,
        owned <==> (winpath::path_name(path@) matches Some(name) && text::valid_utf16(name)
            && "asterfiles-incoming-"@.is_prefix_of(text::utf16_lossy(name))),
{
    let t = effects::backslash_text(temp@);
    let r = effects::backslash_text(rest);
    let p = effects::backslash_text(path@);
    assert(without_trailing_backslashes(t) == t);
    let sep = seq![0x5cu16];
    assert(sep.subrange(1, 1) =~= Seq::<u16>::empty());
    assert(text::utf16_lossy(sep.subrange(1, 1)) =~= Seq::<char>::empty());
    assert(text::utf16_lossy(sep) =~= seq!['\\']);
    assert(text::valid_utf16(sep.subrange(1, 1)));
    assert(text::valid_utf16(sep));
    assert(effects::backslash_text(sep) =~= seq!['\\']);
    lemma_backslash_concat(temp@, sep + rest);
    lemma_backslash_concat(sep, rest);
    assert(p == t + (seq!['\\'] + r));
    assert(p.subrange(0, t.len() as int) =~= t);
    let tail = p.subrange(t.len() as int, p.len() as int);
    assert(tail =~= seq!['\\'] + r);
    assert(tail.subrange(1, tail.len() as int) =~= r);
    assert(without_leading_backslashes(r) == r);
    assert(without_leading_backslashes(tail) == r);
}

/// Nothing but temporary files is copied aside: the drop is temporary exactly where there are files
/// and each of them is.
pub proof fn law_a_drop_is_temporary_as_a_whole(
    paths: &[Vec<u16>],
    temp: &[u16],
    ephemeral: bool,
    path: &[u16],
    under: bool,
    i: int,
)
    requires
        call_ensures(is_ephemeral_drop, (paths, temp), ephemeral),
        0 <= i < paths@.len(),
        path@ == paths@[i]@,
        call_ensures(is_under_user_temp, (path, temp), under),
    ensures
        ephemeral ==> under,
        paths@.len() == 1 ==> (ephemeral <==> under),
{
    let views = winpath::path_views(paths@);
    assert(views[i] == paths@[i]@);
}

/// What stands directly below the folder after a drop: the first names of the dropped paths, each
/// once.
pub proof fn law_each_dropped_path_has_its_top(
    root: &[u16],
    relatives: &[Vec<u16>],
    paths: Vec<Vec<u16>>,
    i: int,
    name: Seq<u16>,
)
    requires
        call_ensures(top_level_paths, (root, relatives), paths),
        0 <= i < relatives@.len(),
        winpath::components(relatives@[i]@).len() > 0,
        winpath::components(relatives@[i]@)[0] == winpath::Component::Normal(name),
    ensures
        exists|j: int|
            0 <= j < paths@.len() && winpath::same_path(
                (#[trigger] paths@[j])@,
                winpath::joined(root@, name),
            ),
{
    let views = winpath::path_views(relatives@);
    assert(views[i] == relatives@[i]@);
    lemma_top_is_there(root@, views, i, name);
    let found = winpath::path_views(paths@);
    let j = choose|j: int|
        0 <= j < found.len() && winpath::same_path(
            #[trigger] found[j],
            winpath::joined(root@, name),
        );
    assert(found[j] == paths@[j]@);
}

proof fn lemma_top_is_there(root: Seq<u16>, relatives: Seq<Seq<u16>>, i: int, name: Seq<u16>)
    requires
        0 <= i < relatives.len(),
        winpath::components(relatives[i]).len() > 0,
        winpath::components(relatives[i])[0] == winpath::Component::Normal(name),
    ensures
        has_path(top_level(root, relatives), winpath::joined(root, name)),
    decreases relatives.len(),
{
    let before = top_level(root, relatives.drop_last());
    let all = top_level(root, relatives);
    let path = winpath::joined(root, name);
    if i < relatives.len() - 1 {
        assert(relatives.drop_last()[i] == relatives[i]);
        lemma_top_is_there(root, relatives.drop_last(), i, name);
        let k = choose|k: int| 0 <= k < before.len() && winpath::same_path(#[trigger] before[k], path);
        assert(all[k] == before[k]);
    } else if !has_path(before, path) {
        assert(all[before.len() as int] == path);
        assert(winpath::same_path(all[before.len() as int], path));
    }
}

/// The path is that of a name in the folder.
pub open spec fn lies_in(folder: Seq<u16>, name: Seq<u16>, path: Seq<u16>) -> bool {
    winpath::plain_name(name) && path == folder.push(0x5c) + name
}

/// Files from one folder have that folder in common.
pub proof fn law_files_of_one_folder_share_it(
    folder: Seq<u16>,
    names: Seq<Seq<u16>>,
    paths: &[Vec<u16>],
    parent: Option<Vec<u16>>,
    none: &[Vec<u16>],
    nothing: Option<Vec<u16>>,
)
    requires
        winpath::plain_folder(folder),
        paths@.len() > 0 && names.len() == paths@.len(),
        forall|i: int| 0 <= i < paths@.len() ==> lies_in(folder, #[trigger] names[i], paths@[i]@),
        call_ensures(common_parent, (paths,), parent),
        none@.len() == 0,
        call_ensures(common_parent, (none,), nothing),
    ensures
        parent is Some && parent->0@ == folder,
        nothing is None,
{
    let views = winpath::path_views(paths@);
    assert forall|i: int| 0 <= i < views.len() implies lies_in(
        folder,
        #[trigger] names[i],
        views[i],
    ) by {
        assert(views[i] == paths@[i]@);
    }
    lemma_common_folder(folder, names, views, paths@.len() as int);
}

proof fn lemma_common_folder(folder: Seq<u16>, names: Seq<Seq<u16>>, paths: Seq<Seq<u16>>, n: int)
    requires
        winpath::plain_folder(folder),
        names.len() == paths.len(),
        forall|i: int| 0 <= i < paths.len() ==> lies_in(folder, #[trigger] names[i], paths[i]),
        1 <= n <= paths.len(),
    ensures
        common_parent_of(paths, n) == Some(folder),
    decreases n,
{
    let k = n - 1;
    assert(lies_in(folder, names[k], paths[k]));
    winpath::lemma_below(folder, names[k]);
    if n > 1 {
        lemma_common_folder(folder, names, paths, n - 1);
        winpath::lemma_lies_below(folder, names[k]);
    }
}

} // verus!
