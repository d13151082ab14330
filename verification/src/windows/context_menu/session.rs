//! What one open menu knows: its submenus, the commands that come from the registry, and how an
//! item is carried out.
use vstd::prelude::*;

use crate::errors;
use crate::errors::{ErrorKind, IoError};
use crate::text;
use crate::text::{
    chars_eq, decode_lossy, lower_chars, push_decimal, push_text, str_chars, string_from_chars,
    text_of, texts_equal,
};
use crate::windows::context_menu;
use crate::windows::context_menu::{
    clean_menu_title, is_builtin_verb, ClassicMenuInvocation, ClassicMenuItem, ClassicMenuItemKind,
    ShellMenuSubmenuToken,
};

verus! {

pub const FIRST_COMMAND_ID: u32 = 1;

pub const LAST_COMMAND_ID: u32 = 0x7fff;

/// How long a submenu may stay empty before it counts as empty.
pub const DYNAMIC_SUBMENU_WAIT_MS: u64 = 300;

pub const DYNAMIC_SUBMENU_POLL_MS: u64 = 10;

// ---- submenus ----

/// A submenu and the menu that holds it, by their handles.
#[derive(Debug, Clone, Copy, PartialEq, Eq, Structural)]
pub struct SubmenuRegistration {
    pub menu: i64,
    pub parent: i64,
}

/// The submenus of a menu, by their tokens: the n-th has the token n, from one on.
#[derive(Debug)]
pub struct SubmenuTable {
    submenus: Vec<SubmenuRegistration>,
}

impl View for SubmenuTable {
    type V = Seq<SubmenuRegistration>;

    closed spec fn view(&self) -> Seq<SubmenuRegistration> {
        self.submenus@
    }
}

/// The position of the first registration of a menu, or the length.
pub open spec fn position_of(table: Seq<SubmenuRegistration>, menu: i64) -> int
    decreases table.len(),
{
    if table.len() == 0 || table[0].menu == menu {
        0
    } else {
        1 + position_of(table.subrange(1, table.len() as int), menu)
    }
}

proof fn lemma_position(table: Seq<SubmenuRegistration>, menu: i64, at: int)
    requires
        0 <= at <= table.len(),
        forall|i: int| 0 <= i < at ==> (#[trigger] table[i]).menu != menu,
        at < table.len() ==> table[at].menu == menu,
    ensures
        position_of(table, menu) == at,
    decreases table.len(),
{
    if at > 0 {
        let rest = table.subrange(1, table.len() as int);
        assert(table[0].menu != menu);
        assert forall|i: int| 0 <= i < at - 1 implies (#[trigger] rest[i]).menu != menu by {
            assert(table[i + 1].menu != menu);
        }
        lemma_position(rest, menu, at - 1);
    }
}

/// The table once a menu is registered.
pub open spec fn with_menu(
    table: Seq<SubmenuRegistration>,
    menu: i64,
    parent: i64,
) -> Seq<SubmenuRegistration> {
    if position_of(table, menu) < table.len() {
        table
    } else {
        table.push(SubmenuRegistration { menu, parent })
    }
}

impl SubmenuTable {
    pub fn new() -> (table: SubmenuTable)
        ensures
            table@.len() == 0,
    {
        SubmenuTable { submenus: Vec::new() }
    }

    /// The token of a submenu, which is registered unless it was.
    pub fn register_submenu(&mut self, menu: i64, parent: i64) -> (token: ShellMenuSubmenuToken)
        requires
            old(self)@.len() < u64::MAX,
        ensures
            final(self)@ == with_menu(old(self)@, menu, parent),
            token == position_of(old(self)@, menu) + 1,
    {
        let n: usize = self.submenus.len();
        let mut i: usize = 0;
        while i < n && self.submenus[i].menu != menu
            invariant
                n == self.submenus@.len(),
                self@ == old(self)@,
                i <= n,
                forall|j: int| 0 <= j < i ==> (#[trigger] self.submenus@[j]).menu != menu,
            decreases n - i,
        {
            i += 1;
        }
        proof {
            lemma_position(self.submenus@, menu, i as int);
        }
        if i == n {
            self.submenus.push(SubmenuRegistration { menu, parent });
        }
        i as u64 + 1
    }

    /// The submenu with a token.
    pub fn registration(&self, token: ShellMenuSubmenuToken) -> (result: Result<
        SubmenuRegistration,
        IoError,
    >)
        ensures
            match result {
                Ok(found) => 1 <= token <= self@.len() && found == self@[token - 1],
                Err(error) => if token == 0 || token - 1 > usize::MAX {
                    errors::fails_with(error, ErrorKind::InvalidInput, "invalid submenu token"@)
                } else {
                    token > self@.len() && errors::fails_with(
                        error,
                        ErrorKind::NotFound,
                        "shell submenu token not found"@,
                    )
                },
            },
    {
        if token == 0 || token - 1 > usize::MAX as u64 {
            return Err(IoError::new(ErrorKind::InvalidInput, "invalid submenu token"));
        }
        let index: usize = (token - 1) as usize;
        if index < self.submenus.len() {
            Ok(self.submenus[index])
        } else {
            Err(IoError::new(ErrorKind::NotFound, "shell submenu token not found"))
        }
    }

    /// The submenu with a token has been built anew under another handle.
    pub fn replace_menu(&mut self, token: ShellMenuSubmenuToken, menu: i64)
        requires
            1 <= token <= old(self)@.len(),
        ensures
            final(self)@ == old(self)@.update(
                token - 1,
                SubmenuRegistration { menu, parent: old(self)@[token - 1].parent },
            ),
    {
        let index: usize = (token - 1) as usize;
        let parent: i64 = self.submenus[index].parent;
        self.submenus.set(index, SubmenuRegistration { menu, parent });
    }
}

/// The place of a submenu in its parent, given the handles of all submenus there.
pub fn submenu_position(handles: &[i64], submenu: i64) -> (result: Result<u32, IoError>)
    requires
        handles@.len() <= u32::MAX,
    ensures
        match result {
            Ok(at) => at < handles@.len() && handles@[at as int] == submenu && forall|j: int|
                0 <= j < at ==> handles@[j] != submenu,
            Err(error) => !handles@.contains(submenu) && errors::fails_with(
                error,
                ErrorKind::NotFound,
                "shell submenu is no longer attached to its parent"@,
            ),
        },
{
    let n: usize = handles.len();
    let mut i: usize = 0;
    while i < n
        invariant
            n == handles@.len(),
            n <= u32::MAX,
            i <= n,
            forall|j: int| 0 <= j < i ==> handles@[j] != submenu,
        decreases n - i,
    {
        if handles[i] == submenu {
            return Ok(i as u32);
        }
        i += 1;
    }
    Err(IoError::new(ErrorKind::NotFound, "shell submenu is no longer attached to its parent"))
}

/// The submenu at a place, which must still be there.
pub fn submenu_at_position(handle: i64) -> (result: Result<i64, IoError>)
    ensures
        match result {
            Ok(found) => handle != 0 && found == handle,
            Err(error) => handle == 0 && errors::fails_with(
                error,
                ErrorKind::NotFound,
                "shell submenu disappeared during initialization"@,
            ),
        },
{
    if handle == 0 {
        Err(IoError::new(ErrorKind::NotFound, "shell submenu disappeared during initialization"))
    } else {
        Ok(handle)
    }
}

// ---- items ----

pub const MFT_SEPARATOR: u32 = 0x800;

pub const MFS_DISABLED: u32 = 3;

pub const MFS_CHECKED: u32 = 8;

pub const MFS_DEFAULT: u32 = 0x1000;

/// An item as the system describes it.
#[derive(Debug)]
pub struct RawMenuItem {
    pub item_type: u32,
    pub id: u32,
    pub state: u32,
    pub title: Vec<u16>,
    pub verb: Option<String>,
    /// The handle of its submenu, or zero.
    pub submenu: i64,
}

/// All bits of `wanted` are set.
pub open spec fn has_all(value: u32, wanted: u32) -> bool {
    value & wanted == wanted
}

/// The number of a command, where it is one that the Shell gave out.
pub open spec fn command_id_of(id: u32) -> Option<u32> {
    if FIRST_COMMAND_ID <= id <= LAST_COMMAND_ID {
        Some(id)
    } else {
        None
    }
}

pub fn command_id(id: u32) -> (command: Option<u32>)
    ensures
        command == command_id_of(id),
{
    if FIRST_COMMAND_ID <= id && id <= LAST_COMMAND_ID {
        Some(id)
    } else {
        None
    }
}

/// The item is a line between others.
pub open spec fn is_separator(item: ClassicMenuItem) -> bool {
    item.command_id is None && item.title@.len() == 0 && item.verb is None && !item.enabled
        && !item.checked && !item.default && item.kind == ClassicMenuItemKind::Separator
}

/// The item shows what the system describes; its kind aside.
pub open spec fn describes_item(item: ClassicMenuItem, raw: RawMenuItem) -> bool {
    &&& item.command_id == command_id_of(raw.id)
    &&& item.title@ == context_menu::cleaned(text::utf16_lossy(raw.title@))
    &&& item.verb == if command_id_of(raw.id) is Some {
        raw.verb
    } else {
        None
    }
    &&& item.enabled == !has_all(raw.state, MFS_DISABLED)
    &&& item.checked == has_all(raw.state, MFS_CHECKED)
    &&& item.default == has_all(raw.state, MFS_DEFAULT)
}

fn separator() -> (item: ClassicMenuItem)
    ensures
        is_separator(item),
{
    ClassicMenuItem {
        command_id: None,
        title: String::new(),
        verb: None,
        enabled: false,
        checked: false,
        default: false,
        kind: ClassicMenuItemKind::Separator,
    }
}

/// The item of this kind, or a separator.
pub fn menu_item(raw: RawMenuItem, kind: ClassicMenuItemKind) -> (item: ClassicMenuItem)
    ensures
        if has_all(raw.item_type, MFT_SEPARATOR) {
            is_separator(item)
        } else {
            describes_item(item, raw) && item.kind == kind
        },
{
    if raw.item_type & MFT_SEPARATOR == MFT_SEPARATOR {
        return separator();
    }
    let chars = decode_lossy(raw.title.as_slice());
    let shown = string_from_chars(chars.as_slice());
    let number = command_id(raw.id);
    let verb = if number.is_some() {
        raw.verb
    } else {
        None
    };
    ClassicMenuItem {
        command_id: number,
        title: clean_menu_title(shown.as_str()),
        verb,
        enabled: raw.state & MFS_DISABLED != MFS_DISABLED,
        checked: raw.state & MFS_CHECKED == MFS_CHECKED,
        default: raw.state & MFS_DEFAULT == MFS_DEFAULT,
        kind,
    }
}

/// The item has a submenu that is registered.
pub open spec fn opens_submenu(raw: RawMenuItem) -> bool {
    !has_all(raw.item_type, MFT_SEPARATOR) && raw.submenu != 0
}

/// The table once the submenus of the first items are registered.
pub open spec fn table_after(
    table: Seq<SubmenuRegistration>,
    raws: Seq<RawMenuItem>,
    menu: i64,
) -> Seq<SubmenuRegistration>
    decreases raws.len(),
{
    if raws.len() == 0 {
        table
    } else {
        let before = table_after(table, raws.drop_last(), menu);
        if opens_submenu(raws.last()) {
            with_menu(before, raws.last().submenu, menu)
        } else {
            before
        }
    }
}

/// The i-th item of a level, its submenu under the token that it has in the table.
pub open spec fn is_level_item(
    item: ClassicMenuItem,
    table: Seq<SubmenuRegistration>,
    raws: Seq<RawMenuItem>,
    menu: i64,
    i: int,
) -> bool {
    let raw = raws[i];
    if has_all(raw.item_type, MFT_SEPARATOR) {
        is_separator(item)
    } else {
        &&& describes_item(item, raw)
        &&& if raw.submenu == 0 {
            item.kind == ClassicMenuItemKind::Command
        } else {
            item.kind matches ClassicMenuItemKind::Submenu { token, items } && items@.len() == 0
                && token == position_of(
                table_after(table, raws.subrange(0, i), menu),
                raw.submenu,
            ) + 1
        }
    }
}

proof fn lemma_table_grows(table: Seq<SubmenuRegistration>, raws: Seq<RawMenuItem>, menu: i64)
    ensures
        table_after(table, raws, menu).len() <= table.len() + raws.len(),
    decreases raws.len(),
{
    if raws.len() > 0 {
        lemma_table_grows(table, raws.drop_last(), menu);
    }
}

/// The items of one menu. Submenus are registered and stay empty until they are asked for.
pub fn read_menu_level(raws: Vec<RawMenuItem>, menu: i64, table: &mut SubmenuTable) -> (items: Vec<
    ClassicMenuItem,
>)
    requires
        old(table)@.len() + raws@.len() < u64::MAX,
    ensures
        items@.len() == raws@.len(),
        forall|i: int|
            0 <= i < items@.len() ==> is_level_item(
                #[trigger] items@[i],
                old(table)@,
                raws@,
                menu,
                i,
            ),
        final(table)@ == table_after(old(table)@, raws@, menu),
{
    let ghost all = raws@;
    let ghost start = table@;
    let mut left = raws;
    let mut items: Vec<ClassicMenuItem> = Vec::new();
    let ghost mut done: int = 0;
    assert(left@ =~= all.subrange(0, all.len() as int));
    assert(all.subrange(0, 0).len() == 0);
    while left.len() > 0
        invariant
            0 <= done <= all.len(),
            start.len() + all.len() < u64::MAX,
            left@ == all.subrange(done, all.len() as int),
            items@.len() == done,
            table@ == table_after(start, all.subrange(0, done), menu),
            forall|i: int|
                0 <= i < items@.len() ==> is_level_item(
                    #[trigger] items@[i],
                    start,
                    all,
                    menu,
                    i,
                ),
        decreases left@.len(),
    {
        proof {
            let next = all.subrange(0, done + 1);
            assert(next.drop_last() =~= all.subrange(0, done));
            assert(next.last() == left@[0]);
            lemma_table_grows(start, all.subrange(0, done), menu);
        }
        let raw = left.remove(0);
        assert(left@ =~= all.subrange(done + 1, all.len() as int));
        let kind = if raw.item_type & MFT_SEPARATOR != MFT_SEPARATOR && raw.submenu != 0 {
            ClassicMenuItemKind::Submenu {
                token: table.register_submenu(raw.submenu, menu),
                items: Vec::new(),
            }
        } else {
            ClassicMenuItemKind::Command
        };
        let item = menu_item(raw, kind);
        assert(is_level_item(item, start, all, menu, done));
        items.push(item);
        proof {
            done = done + 1;
        }
    }
    assert(all.subrange(0, done) =~= all);
    items
}

// ---- submenus that come late ----

/// The token of the submenu that belongs to an item with this verb.
pub open spec fn submenu_with_verb(item: ClassicMenuItem, verb: Seq<char>) -> Option<u64> {
    match item.kind {
        ClassicMenuItemKind::Submenu { token, .. } => if context_menu::text_view(item.verb) == Some(
            verb,
        ) {
            Some(token)
        } else {
            None
        },
        _ => None,
    }
}

fn find_token(item: &ClassicMenuItem, verb: &str) -> (found: Option<u64>)
    ensures
        found == submenu_with_verb(*item, verb@),
{
    match &item.kind {
        ClassicMenuItemKind::Submenu { token, .. } => match &item.verb {
            Some(own) => if texts_equal(own.as_str(), verb) {
                Some(*token)
            } else {
                None
            },
            None => None,
        },
        _ => None,
    }
}

/// The submenus of a background menu that are read at once: those known to come late.
pub open spec fn preload_token(item: ClassicMenuItem) -> Option<u64> {
    match submenu_with_verb(item, "powershell7x64"@) {
        Some(token) => Some(token),
        None => submenu_with_verb(item, "windows.share"@),
    }
}

pub open spec fn preload_tokens(items: Seq<ClassicMenuItem>) -> Seq<u64>
    decreases items.len(),
{
    if items.len() == 0 {
        Seq::empty()
    } else {
        let before = preload_tokens(items.drop_last());
        match preload_token(items.last()) {
            Some(token) => before.push(token),
            None => before,
        }
    }
}

pub fn preload_background_submenus(has_folder: bool, items: &[ClassicMenuItem]) -> (tokens: Vec<
    u64,
>)
    ensures
        tokens@ == if has_folder {
            preload_tokens(items@)
        } else {
            Seq::empty()
        },
{
    let mut tokens: Vec<u64> = Vec::new();
    if !has_folder {
        return tokens;
    }
    let n: usize = items.len();
    let mut i: usize = 0;
    while i < n
        invariant
            n == items@.len(),
            i <= n,
            tokens@ == preload_tokens(items@.subrange(0, i as int)),
        decreases n - i,
    {
        assert(items@.subrange(0, i + 1).drop_last() =~= items@.subrange(0, i as int));
        let token = match find_token(&items[i], "powershell7x64") {
            Some(token) => Some(token),
            None => find_token(&items[i], "windows.share"),
        };
        match token {
            Some(token) => tokens.push(token),
            None => {},
        }
        i += 1;
    }
    assert(items@.subrange(0, i as int) =~= items@);
    tokens
}

/// The first item that has such a submenu.
pub fn folder_submenu(items: &[ClassicMenuItem], verb: &str) -> (result: Result<u64, IoError>)
    ensures
        match result {
            Ok(token) => exists|i: int|
                {
                    &&& 0 <= i < items@.len()
                    &&& submenu_with_verb(#[trigger] items@[i], verb@) == Some(token)
                    &&& forall|j: int|
                        0 <= j < i ==> submenu_with_verb(#[trigger] items@[j], verb@) is None
                },
            Err(error) => errors::fails_with(
                error,
                ErrorKind::NotFound,
                "folder-equivalent submenu not found"@,
            ) && forall|j: int|
                0 <= j < items@.len() ==> submenu_with_verb(#[trigger] items@[j], verb@) is None,
        },
{
    let n: usize = items.len();
    let mut i: usize = 0;
    while i < n
        invariant
            n == items@.len(),
            i <= n,
            forall|j: int| 0 <= j < i ==> submenu_with_verb(#[trigger] items@[j], verb@) is None,
        decreases n - i,
    {
        match find_token(&items[i], verb) {
            Some(token) => {
                assert(submenu_with_verb(items@[i as int], verb@) == Some(token));
                return Ok(token);
            },
            None => {},
        }
        i += 1;
    }
    Err(IoError::new(ErrorKind::NotFound, "folder-equivalent submenu not found"))
}

/// What stands in for a submenu that has stayed empty.
#[derive(Debug)]
pub enum LateSubmenu {
    Items(Vec<ClassicMenuItem>),
    /// The same submenu of the menu for the folder itself.
    OfSelectedFolder,
    Empty,
}

pub fn late_submenu(
    verb: &Option<String>,
    cascade: Option<Vec<ClassicMenuItem>>,
    has_folder: bool,
) -> (late: LateSubmenu)
    ensures
        match (context_menu::text_view(*verb), cascade) {
            (Some(_), Some(items)) => late == LateSubmenu::Items(items),
            (Some(verb), None) => if verb == "windows.share"@ && has_folder {
                late is OfSelectedFolder
            } else {
                late is Empty
            },
            (None, _) => late is Empty,
        },
{
    match verb {
        Some(verb) => {
            match cascade {
                Some(items) => {
                    return LateSubmenu::Items(items);
                },
                None => {},
            }
            if texts_equal(verb.as_str(), "windows.share") && has_folder {
                LateSubmenu::OfSelectedFolder
            } else {
                LateSubmenu::Empty
            }
        },
        None => LateSubmenu::Empty,
    }
}

// ---- commands from the registry ----

#[derive(Debug)]
pub struct RegistryCascadeCommand {
    pub command: String,
    pub elevated: bool,
}

/// The commands that menus from the registry have added; the n-th has the n-th number from the
/// last one downwards.
#[derive(Debug)]
pub struct RegistryCommands {
    commands: Vec<RegistryCascadeCommand>,
}

/// A command and whether it runs elevated.
pub struct Cascade {
    pub command: Seq<char>,
    pub elevated: bool,
}

impl View for RegistryCommands {
    type V = Seq<Cascade>;

    closed spec fn view(&self) -> Seq<Cascade> {
        Seq::new(
            self.commands@.len(),
            |i: int|
                Cascade {
                    command: self.commands@[i].command@,
                    elevated: self.commands@[i].elevated,
                },
        )
    }
}

/// The position of a command with this number.
pub open spec fn cascade_index(id: u32) -> int {
    LAST_COMMAND_ID - id
}

/// The number is one of those given out.
pub open spec fn is_cascade(commands: Seq<Cascade>, id: u32) -> bool {
    0 <= cascade_index(id) < commands.len()
}

/// What the registry says of an item of a cascading menu.
#[derive(Debug)]
pub struct CascadeEntry {
    pub key: String,
    pub mui_verb: Option<String>,
    pub default_title: Option<String>,
    pub command: Option<String>,
    pub has_shield: bool,
}

/// The title of an entry: its display verb, else its default value, else its key.
pub open spec fn entry_title(entry: CascadeEntry) -> Seq<char> {
    match (entry.mui_verb, entry.default_title) {
        (Some(title), _) => title@,
        (None, Some(title)) => title@,
        (None, None) => entry.key@,
    }
}

pub open spec fn entry_elevated(entry: CascadeEntry) -> bool {
    entry.has_shield || text::ascii_lower_text(entry.key@) == text::ascii_lower_text("runas"@)
}

/// The verb under which a command from the registry is known.
pub open spec fn registry_verb(id: u32) -> Seq<char> {
    "registry-command:"@ + text::decimal(id as nat)
}

fn registry_verb_text(id: u32) -> (verb: String)
    ensures
        verb@ == registry_verb(id),
{
    let mut verb = text_of("registry-command:");
    push_decimal(&mut verb, id as u64);
    verb
}

/// The entry can be added: it has a command, and there is a number left for it.
pub open spec fn can_add(commands: Seq<Cascade>, entry: CascadeEntry) -> bool {
    entry.command is Some && commands.len() <= LAST_COMMAND_ID
}

pub open spec fn added(commands: Seq<Cascade>, entry: CascadeEntry) -> Seq<Cascade> {
    commands.push(Cascade { command: (entry.command->0)@, elevated: entry_elevated(entry) })
}

/// The commands once the entries are added, as far as they can be.
pub open spec fn commands_after(commands: Seq<Cascade>, entries: Seq<CascadeEntry>) -> Seq<Cascade>
    decreases entries.len(),
{
    if entries.len() == 0 {
        commands
    } else {
        let before = commands_after(commands, entries.drop_last());
        if all_added(commands, entries.drop_last()) && can_add(before, entries.last()) {
            added(before, entries.last())
        } else {
            before
        }
    }
}

/// All entries can be added one after the other.
pub open spec fn all_added(commands: Seq<Cascade>, entries: Seq<CascadeEntry>) -> bool
    decreases entries.len(),
{
    entries.len() == 0 || (all_added(commands, entries.drop_last()) && can_add(
        commands_after(commands, entries.drop_last()),
        entries.last(),
    ))
}

/// The item for the i-th entry.
pub open spec fn is_cascade_item(
    item: ClassicMenuItem,
    commands: Seq<Cascade>,
    entry: CascadeEntry,
    i: int,
) -> bool {
    let id = (LAST_COMMAND_ID - (commands.len() + i)) as u32;
    &&& item.command_id == Some(id)
    &&& item.title@ == context_menu::cleaned(entry_title(entry))
    &&& context_menu::text_view(item.verb) == Some(registry_verb(id))
    &&& item.enabled
    &&& !item.checked
    &&& !item.default
    &&& item.kind == ClassicMenuItemKind::Command
}

proof fn lemma_added_count(commands: Seq<Cascade>, entries: Seq<CascadeEntry>)
    requires
        all_added(commands, entries),
    ensures
        commands_after(commands, entries).len() == commands.len() + entries.len(),
    decreases entries.len(),
{
    if entries.len() > 0 {
        lemma_added_count(commands, entries.drop_last());
    }
}

proof fn lemma_stuck(commands: Seq<Cascade>, entries: Seq<CascadeEntry>, n: int)
    requires
        0 <= n <= entries.len(),
        !all_added(commands, entries.subrange(0, n)),
    ensures
        !all_added(commands, entries),
        commands_after(commands, entries) == commands_after(commands, entries.subrange(0, n)),
    decreases entries.len() - n,
{
    if n == entries.len() {
        assert(entries.subrange(0, n) =~= entries);
    } else {
        assert(entries.subrange(0, n + 1).drop_last() =~= entries.subrange(0, n));
        lemma_stuck(commands, entries, n + 1);
    }
}

impl RegistryCommands {
    pub fn new() -> (commands: RegistryCommands)
        ensures
            commands@.len() == 0,
    {
        let commands = RegistryCommands { commands: Vec::new() };
        assert(commands@ =~= Seq::empty());
        commands
    }

    /// The command with this number.
    pub fn find(&self, id: u32) -> (found: Option<&RegistryCascadeCommand>)
        ensures
            found is Some <==> is_cascade(self@, id),
            found matches Some(found) ==> found.command@ == self@[cascade_index(id)].command
                && found.elevated == self@[cascade_index(id)].elevated,
    {
        if id > LAST_COMMAND_ID {
            return None;
        }
        let index: usize = (LAST_COMMAND_ID - id) as usize;
        if index < self.commands.len() {
            Some(&self.commands[index])
        } else {
            None
        }
    }

    /// The items of a cascading menu from the registry. There are none where an entry has no
    /// command; the commands of the entries before it stay known.
    pub fn registry_cascade_items(&mut self, entries: &[CascadeEntry]) -> (items: Option<
        Vec<ClassicMenuItem>,
    >)
        ensures
            final(self)@ == commands_after(old(self)@, entries@),
            items is Some <==> entries@.len() > 0 && all_added(old(self)@, entries@),
            items matches Some(items) ==> items@.len() == entries@.len() && forall|i: int|
                0 <= i < items@.len() ==> is_cascade_item(
                    #[trigger] items@[i],
                    old(self)@,
                    entries@[i],
                    i,
                ),
    {
        let ghost start = self@;
        let n: usize = entries.len();
        let mut items: Vec<ClassicMenuItem> = Vec::new();
        let mut i: usize = 0;
        assert(entries@.subrange(0, 0).len() == 0);
        while i < n
            invariant
                n == entries@.len(),
                i <= n,
                start == old(self)@,
                items@.len() == i,
                all_added(start, entries@.subrange(0, i as int)),
                self@ == commands_after(start, entries@.subrange(0, i as int)),
                forall|j: int|
                    0 <= j < items@.len() ==> is_cascade_item(
                        #[trigger] items@[j],
                        start,
                        entries@[j],
                        j,
                    ),
            decreases n - i,
        {
            let ghost seen = entries@.subrange(0, i as int);
            let ghost next = entries@.subrange(0, i + 1);
            proof {
                assert(next.drop_last() =~= seen);
                assert(next.last() == entries@[i as int]);
                lemma_added_count(start, seen);
            }
            let known: usize = self.commands.len();
            assert(known == self@.len());
            if entries[i].command.is_none() || known > LAST_COMMAND_ID as usize {
                proof {
                    assert(!can_add(self@, entries@[i as int]));
                    assert(!all_added(start, next));
                    lemma_stuck(start, entries@, i + 1);
                }
                return None;
            }
            let command = match &entries[i].command {
                Some(command) => text_of(command.as_str()),
                None => String::new(),
            };
            let title = match &entries[i].mui_verb {
                Some(title) => text_of(title.as_str()),
                None => match &entries[i].default_title {
                    Some(title) => text_of(title.as_str()),
                    None => text_of(entries[i].key.as_str()),
                },
            };
            let own_key = str_chars(entries[i].key.as_str());
            let runas = str_chars("runas");
            let lower_key = lower_chars(own_key.as_slice());
            let lower_runas = lower_chars(runas.as_slice());
            let elevated = entries[i].has_shield || chars_eq(
                lower_key.as_slice(),
                lower_runas.as_slice(),
            );
            let id: u32 = LAST_COMMAND_ID - known as u32;
            let ghost before = self@;
            self.commands.push(RegistryCascadeCommand { command, elevated });
            assert(self@ =~= added(before, entries@[i as int]));
            items.push(
                ClassicMenuItem {
                    command_id: Some(id),
                    title: clean_menu_title(title.as_str()),
                    verb: Some(registry_verb_text(id)),
                    enabled: true,
                    checked: false,
                    default: false,
                    kind: ClassicMenuItemKind::Command,
                },
            );
            i += 1;
        }
        assert(entries@.subrange(0, i as int) =~= entries@);
        if items.len() == 0 {
            None
        } else {
            Some(items)
        }
    }
}

// ---- the keys of the registry ----

/// The key of a verb in the menus for the background of folders.
pub fn background_verb_key(verb: &str) -> (key: String)
    ensures
        key@ == "Directory\\Background\\shell\\"@ + verb@,
{
    let mut key = text_of("Directory\\Background\\shell\\");
    push_text(&mut key, verb);
    key
}

/// A key below another.
pub fn sub_key(key: &str, name: &str) -> (path: String)
    ensures
        path@ == key@ + "\\"@ + name@,
{
    let mut path = text_of(key);
    push_text(&mut path, "\\");
    push_text(&mut path, name);
    path
}

// ---- carrying out an item ----

/// How an item is carried out, and what is reported when it was.
#[derive(Debug)]
pub enum InvokePlan {
    /// Run the command interpreter with these parameters.
    Registry { parameters: String, elevated: bool, invocation: ClassicMenuInvocation },
    /// The file manager does it.
    BuiltIn(ClassicMenuInvocation),
    /// Invoke the Shell with this offset.
    Shell { offset: u32, invocation: ClassicMenuInvocation },
}

pub open spec fn shell_with_verb(invocation: ClassicMenuInvocation, verb: Option<Seq<char>>) -> bool {
    invocation matches ClassicMenuInvocation::Shell { verb: own } && context_menu::text_view(own)
        == verb
}

pub fn invoke_command(
    command_id: u32,
    released: bool,
    registry: &RegistryCommands,
    verb: Option<String>,
) -> (result: Result<InvokePlan, IoError>)
    ensures
        if command_id < FIRST_COMMAND_ID {
            result matches Err(error) && errors::fails_with(
                error,
                ErrorKind::Other,
                "shell returned an invalid menu command"@,
            )
        } else if released {
            result matches Err(error) && errors::fails_with(
                error,
                ErrorKind::Other,
                "shell context menu was already released"@,
            )
        } else if is_cascade(registry@, command_id) {
            result matches Ok(InvokePlan::Registry { parameters, elevated, invocation })
                && parameters@ == "/S /C \""@ + registry@[cascade_index(command_id)].command
                + "\""@ && elevated == registry@[cascade_index(command_id)].elevated
                && shell_with_verb(invocation, Some(registry_verb(command_id)))
        } else if verb is Some && context_menu::builtin_verb((verb->0)@) {
            result matches Ok(InvokePlan::BuiltIn(ClassicMenuInvocation::BuiltIn { verb: own }))
                && Some(own) == verb
        } else {
            result matches Ok(InvokePlan::Shell { offset, invocation }) && offset == command_id
                - FIRST_COMMAND_ID && invocation == (ClassicMenuInvocation::Shell { verb })
        },
{
    if command_id < FIRST_COMMAND_ID {
        return Err(IoError::new(ErrorKind::Other, "shell returned an invalid menu command"));
    }
    if released {
        return Err(IoError::new(ErrorKind::Other, "shell context menu was already released"));
    }
    match registry.find(command_id) {
        Some(command) => {
            let mut parameters = text_of("/S /C \"");
            push_text(&mut parameters, command.command.as_str());
            push_text(&mut parameters, "\"");
            return Ok(
                InvokePlan::Registry {
                    parameters,
                    elevated: command.elevated,
                    invocation: ClassicMenuInvocation::Shell {
                        verb: Some(registry_verb_text(command_id)),
                    },
                },
            );
        },
        None => {},
    }
    match verb {
        Some(verb) => if is_builtin_verb(verb.as_str()) {
            Ok(InvokePlan::BuiltIn(ClassicMenuInvocation::BuiltIn { verb }))
        } else {
            Ok(
                InvokePlan::Shell {
                    offset: command_id - FIRST_COMMAND_ID,
                    invocation: ClassicMenuInvocation::Shell { verb: Some(verb) },
                },
            )
        },
        None => Ok(
            InvokePlan::Shell {
                offset: command_id - FIRST_COMMAND_ID,
                invocation: ClassicMenuInvocation::Shell { verb: None },
            },
        ),
    }
}

// ---- laws ----

/// A submenu keeps its token, however often it is met, and no other submenu gets it.
pub proof fn law_tokens_are_stable(
    table: Seq<SubmenuRegistration>,
    menu: i64,
    parent: i64,
    other: i64,
    other_parent: i64,
)
    ensures
        ({
            let once = with_menu(table, menu, parent);
            let then = with_menu(once, other, other_parent);
            &&& position_of(once, menu) == position_of(table, menu)
            &&& position_of(then, menu) == position_of(table, menu)
            &&& with_menu(once, menu, parent) == once
            &&& other != menu ==> position_of(then, other) != position_of(then, menu)
        }),
{
    lemma_position_meaning(table, menu);
    let at = position_of(table, menu);
    let once = with_menu(table, menu, parent);
    lemma_position(once, menu, at);
    lemma_position_meaning(once, other);
    let then = with_menu(once, other, other_parent);
    lemma_position(then, menu, at);
    lemma_position(then, other, position_of(once, other));
}

proof fn lemma_position_meaning(table: Seq<SubmenuRegistration>, menu: i64)
    ensures
        0 <= position_of(table, menu) <= table.len(),
        forall|i: int| 0 <= i < position_of(table, menu) ==> (#[trigger] table[i]).menu != menu,
        position_of(table, menu) < table.len() ==> table[position_of(table, menu)].menu == menu,
    decreases table.len(),
{
    if table.len() > 0 && table[0].menu != menu {
        let rest = table.subrange(1, table.len() as int);
        lemma_position_meaning(rest, menu);
        assert forall|i: int| 0 <= i < position_of(table, menu) implies (#[trigger] table[i]).menu
            != menu by {
            if i > 0 {
                assert(rest[i - 1].menu != menu);
            }
        }
    }
}

/// The commands of a menu from the registry are found under the numbers of its items, and the
/// commands known before stay what they were.
pub proof fn law_cascade_commands_are_found(
    commands: Seq<Cascade>,
    entries: Seq<CascadeEntry>,
    i: int,
)
    requires
        all_added(commands, entries),
        0 <= i < commands.len() + entries.len(),
    ensures
        commands_after(commands, entries).len() == commands.len() + entries.len(),
        i < commands.len() ==> commands_after(commands, entries)[i] == commands[i],
        i >= commands.len() ==> commands_after(commands, entries)[i] == (Cascade {
            command: (entries[i - commands.len()].command->0)@,
            elevated: entry_elevated(entries[i - commands.len()]),
        }),
    decreases entries.len(),
{
    lemma_added_count(commands, entries);
    if entries.len() > 0 {
        lemma_added_count(commands, entries.drop_last());
        if i < commands.len() + entries.len() - 1 {
            law_cascade_commands_are_found(commands, entries.drop_last(), i);
        }
    }
}

/// An item of the system is shown with its number, its title without the marks of its access key, its
/// verb, and as enabled, checked or default as it is; a separator shows nothing of this.
pub proof fn law_an_item_shows_what_the_system_says(
    raw: RawMenuItem,
    kind: ClassicMenuItemKind,
    title: &str,
    clean: String,
    item: ClassicMenuItem,
)
    requires
        call_ensures(menu_item, (raw, kind), item),
        title@ == text::utf16_lossy(raw.title@),
        call_ensures(context_menu::clean_menu_title, (title,), clean),
    ensures
        raw.item_type & 0x800 == 0x800 ==> item.kind == ClassicMenuItemKind::Separator
            && item.command_id is None && item.title@.len() == 0 && !item.enabled && !item.checked
            && !item.default && item.verb is None,
        raw.item_type & 0x800 != 0x800 ==> {
            &&& item.kind == kind
            &&& item.title@ == clean@
            &&& item.command_id is Some <==> 1 <= raw.id <= 0x7fff
            &&& item.command_id is Some ==> item.command_id->0 == raw.id && item.verb == raw.verb
            &&& item.command_id is None ==> item.verb is None
            &&& item.enabled <==> raw.state & 3 != 3
            &&& item.checked <==> raw.state & 8 == 8
            &&& item.default <==> raw.state & 0x1000 == 0x1000
        },
{
}

/// A submenu that is registered is found under its token, with its parent; registering it again gives
/// the same token and registers nothing.
pub proof fn law_a_registered_submenu_is_found(
    first: &mut SubmenuTable,
    second: &mut SubmenuTable,
    menu: i64,
    parent: i64,
    token: ShellMenuSubmenuToken,
    again: ShellMenuSubmenuToken,
    found: Result<SubmenuRegistration, IoError>,
)
    requires
        old(first)@.len() < usize::MAX,
        call_ensures(SubmenuTable::register_submenu, (first, menu, parent), token),
        *old(second) == *final(first),
        call_ensures(SubmenuTable::register_submenu, (second, menu, parent), again),
        call_ensures(SubmenuTable::registration, (&*final(first), token), found),
    ensures
        found is Ok && found->Ok_0.menu == menu,
        again == token,
        final(second)@ == final(first)@,
        (forall|i: int| 0 <= i < old(first)@.len() ==> (#[trigger] old(first)@[i]).menu != menu)
            ==> found->Ok_0.parent == parent && final(first)@.len() == old(first)@.len() + 1,
        forall|i: int| 0 <= i < old(first)@.len() ==> final(first)@[i] == #[trigger] old(first)@[i],
{
    let table = old(first)@;
    lemma_position_meaning(table, menu);
    law_tokens_are_stable(table, menu, parent, menu, parent);
    let at = position_of(table, menu);
    assert(token == at + 1);
    assert(final(first)@[at].menu == menu);
}

/// A submenu that the system has replaced stays under its token and below its parent, and no other
/// changes.
pub proof fn law_a_replaced_submenu_keeps_its_token(
    table: &mut SubmenuTable,
    token: ShellMenuSubmenuToken,
    menu: i64,
    other: int,
)
    requires
        1 <= token <= old(table)@.len(),
        0 <= other < old(table)@.len(),
        call_ensures(SubmenuTable::replace_menu, (table, token, menu), ()),
    ensures
        final(table)@.len() == old(table)@.len(),
        other == token - 1 ==> final(table)@[other].menu == menu,
        other != token - 1 ==> final(table)@[other].menu == old(table)@[other].menu,
        final(table)@[other].parent == old(table)@[other].parent,
{
}

proof fn lemma_all_are_added(commands: Seq<Cascade>, entries: Seq<CascadeEntry>)
    requires
        commands.len() + entries.len() <= LAST_COMMAND_ID,
        forall|i: int| 0 <= i < entries.len() ==> (#[trigger] entries[i]).command is Some,
    ensures
        all_added(commands, entries),
    decreases entries.len(),
{
    if entries.len() > 0 {
        let before = entries.drop_last();
        assert forall|i: int| 0 <= i < before.len() implies (#[trigger] before[i]).command is Some by {
            assert(before[i] == entries[i]);
        }
        lemma_all_are_added(commands, before);
        lemma_added_count(commands, before);
        assert(entries.last() == entries[entries.len() - 1]);
    }
}

/// The entries of a menu from the registry are all shown where each has a command, and none is where
/// one has none; carrying out an item runs the command of its entry, elevated exactly where the entry
/// asks for it.
pub proof fn law_an_entry_runs_its_command(
    commands: &mut RegistryCommands,
    entries: &[CascadeEntry],
    items: Option<Vec<ClassicMenuItem>>,
    i: int,
    verb: Option<String>,
    plan: Result<InvokePlan, IoError>,
)
    requires
        old(commands)@.len() + entries@.len() < 0x7fff,
        0 <= i < entries@.len(),
        call_ensures(RegistryCommands::registry_cascade_items, (commands, entries), items),
        items is Some ==> call_ensures(
            invoke_command,
            (items->0@[i].command_id->0, false, &*final(commands), verb),
            plan,
        ),
    ensures
        (forall|k: int| 0 <= k < entries@.len() ==> (#[trigger] entries@[k]).command is Some)
            ==> items is Some,
        entries@[0].command is None ==> items is None,
        items is Some ==> {
            let entry = entries@[i];
            &&& items->0@.len() == entries@.len()
            &&& items->0@[i].command_id is Some && items->0@[i].enabled
            &&& plan is Ok && plan->Ok_0 is Registry
            &&& entry.command is Some && plan->Ok_0->parameters@ == "/S /C \""@ + entry.command->0@
                + "\""@
            &&& entry.has_shield ==> plan->Ok_0->elevated
            &&& plan->Ok_0->elevated ==> entry.has_shield || text::ascii_lower_text(entry.key@)
                == "runas"@
        },
        forall|k: int|
            0 <= k < old(commands)@.len() ==> final(commands)@[k] == #[trigger] old(commands)@[k],
{
    let known = old(commands)@;
    if forall|k: int| 0 <= k < entries@.len() ==> (#[trigger] entries@[k]).command is Some {
        lemma_all_are_added(known, entries@);
    }
    if entries@[0].command is None {
        lemma_first_refused(known, entries@);
    }
    lemma_known_stay(known, entries@);
    if items is Some {
        let n = known.len() as int;
        law_cascade_commands_are_found(known, entries@, n + i);
        assert(is_cascade_item(items->0@[i], known, entries@[i], i));
        let id = items->0@[i].command_id->0;
        assert(cascade_index(id) == n + i);
        lemma_each_has_a_command(known, entries@, i);
        reveal_strlit("runas");
        assert(text::ascii_lower_text("runas"@) =~= "runas"@);
    }
}

proof fn lemma_each_has_a_command(commands: Seq<Cascade>, entries: Seq<CascadeEntry>, i: int)
    requires
        all_added(commands, entries),
        0 <= i < entries.len(),
    ensures
        entries[i].command is Some,
    decreases entries.len(),
{
    if i < entries.len() - 1 {
        lemma_each_has_a_command(commands, entries.drop_last(), i);
        assert(entries.drop_last()[i] == entries[i]);
    }
}

proof fn lemma_first_refused(commands: Seq<Cascade>, entries: Seq<CascadeEntry>)
    requires
        entries.len() > 0,
        entries[0].command is None,
    ensures
        !all_added(commands, entries),
    decreases entries.len(),
{
    if entries.len() > 1 {
        assert(entries.drop_last()[0] == entries[0]);
        lemma_first_refused(commands, entries.drop_last());
    }
}

proof fn lemma_known_stay(commands: Seq<Cascade>, entries: Seq<CascadeEntry>)
    ensures
        commands_after(commands, entries).len() >= commands.len(),
        forall|k: int|
            0 <= k < commands.len() ==> commands_after(commands, entries)[k]
                == #[trigger] commands[k],
    decreases entries.len(),
{
    if entries.len() > 0 {
        lemma_known_stay(commands, entries.drop_last());
    }
}

/// A command that the file manager has itself is left to it, under its verb; every other goes to the
/// Shell as the offset of its number. Nothing is carried out from a menu that is gone.
pub proof fn law_commands_go_where_they_belong(
    command_id: u32,
    registry: RegistryCommands,
    verb: Option<String>,
    plan: Result<InvokePlan, IoError>,
    late: Result<InvokePlan, IoError>,
)
    requires
        registry@.len() == 0,
        call_ensures(invoke_command, (command_id, false, &registry, verb), plan),
        call_ensures(invoke_command, (command_id, true, &registry, verb), late),
    ensures
        late is Err,
        plan is Ok <==> command_id >= 1,
        plan matches Ok(InvokePlan::Shell { offset, invocation }) ==> offset + 1 == command_id
            && invocation == (ClassicMenuInvocation::Shell { verb }),
        plan is Ok ==> (plan->Ok_0 is BuiltIn <==> verb is Some && (verb->0@ == "cut"@ || verb->0@
            == "copy"@ || verb->0@ == "paste"@ || verb->0@ == "delete"@ || verb->0@ == "rename"@)),
        plan is Ok && plan->Ok_0 is BuiltIn ==> plan->Ok_0->BuiltIn_0 == (
        ClassicMenuInvocation::BuiltIn { verb: verb->0 }),
        plan is Ok ==> !(plan->Ok_0 is Registry),
{
}

/// The items of a level are those of the system, in its order; one with a submenu leads to that
/// submenu, by a token under which it is registered below this menu.
pub proof fn law_a_level_leads_to_its_submenus(
    raws: Vec<RawMenuItem>,
    menu: i64,
    table: &mut SubmenuTable,
    items: Vec<ClassicMenuItem>,
    i: int,
)
    requires
        old(table)@.len() + raws@.len() < u64::MAX,
        call_ensures(read_menu_level, (raws, menu, table), items),
        0 <= i < raws@.len(),
    ensures
        items@.len() == raws@.len(),
        items@[i].kind is Separator <==> raws@[i].item_type & 0x800 == 0x800,
        items@[i].kind is Submenu <==> raws@[i].item_type & 0x800 != 0x800 && raws@[i].submenu != 0,
        items@[i].kind matches ClassicMenuItemKind::Submenu { token, items: below } ==> 1 <= token
            <= final(table)@.len() && final(table)@[token - 1].menu == raws@[i].submenu
            && below@.len() == 0,
        forall|k: int| 0 <= k < old(table)@.len() ==> final(table)@[k] == #[trigger] old(table)@[k],
{
    assert(is_level_item(items@[i], old(table)@, raws@, menu, i));
    assert(raws@.subrange(0, raws@.len() as int) =~= raws@);
    lemma_level_table(old(table)@, raws@, menu, 0, raws@.len() as int);
    assert(raws@.subrange(0, 0) =~= Seq::<RawMenuItem>::empty());
    assert(table_after(old(table)@, raws@.subrange(0, 0), menu) == old(table)@);
    if opens_submenu(raws@[i]) {
        let before = table_after(old(table)@, raws@.subrange(0, i), menu);
        let upto = raws@.subrange(0, i + 1);
        assert(upto.drop_last() =~= raws@.subrange(0, i));
        let after = table_after(old(table)@, upto, menu);
        assert(after == with_menu(before, raws@[i].submenu, menu));
        lemma_position_meaning(before, raws@[i].submenu);
        lemma_level_table(old(table)@, raws@, menu, i + 1, raws@.len() as int);
        let at = position_of(before, raws@[i].submenu);
        assert(after[at].menu == raws@[i].submenu);
        assert(final(table)@[at] == after[at]);
    }
}

proof fn lemma_level_table(
    table: Seq<SubmenuRegistration>,
    raws: Seq<RawMenuItem>,
    menu: i64,
    from: int,
    to: int,
)
    requires
        0 <= from <= to <= raws.len(),
    ensures
        ({
            let a = table_after(table, raws.subrange(0, from), menu);
            let b = table_after(table, raws.subrange(0, to), menu);
            a.len() <= b.len() && forall|k: int| 0 <= k < a.len() ==> b[k] == #[trigger] a[k]
        }),
    decreases to - from,
{
    if from < to {
        lemma_level_table(table, raws, menu, from, to - 1);
        assert(raws.subrange(0, to).drop_last() =~= raws.subrange(0, to - 1));
    }
}

/// The submenu that is looked for is the first with that verb; without one it is not found. The submenus
/// that are read ahead, for a folder alone, are those of the two verbs that fill theirs late.
pub proof fn law_submenus_are_found_by_their_verb(
    items: &[ClassicMenuItem],
    verb: &str,
    at: int,
    result: Result<u64, IoError>,
)
    requires
        0 <= at < items@.len(),
        call_ensures(folder_submenu, (items, verb), result),
    ensures
        items@[at].kind is Submenu && items@[at].verb is Some && items@[at].verb->0@ == verb@
            ==> result is Ok,
        result matches Ok(token) ==> exists|i: int|
            0 <= i < items@.len() && (#[trigger] items@[i]).kind is Submenu && items@[i].kind->token
                == token && items@[i].verb is Some && items@[i].verb->0@ == verb@,
{
    if result is Err {
        assert(submenu_with_verb(items@[at], verb@) is None);
    } else {
        let i = choose|i: int|
            0 <= i < items@.len() && submenu_with_verb(#[trigger] items@[i], verb@) == Some(
                result->Ok_0,
            );
        assert(items@[i].kind is Submenu);
    }
}

/// One more item adds its token to those that are read ahead where it is a submenu with one of the two
/// verbs; outside a folder none is read ahead.
pub proof fn law_late_submenus_are_read_ahead(
    items: &[ClassicMenuItem],
    item: ClassicMenuItem,
    more: &[ClassicMenuItem],
    before: Vec<u64>,
    after: Vec<u64>,
    outside: Vec<u64>,
)
    requires
        more@ == items@.push(item),
        call_ensures(preload_background_submenus, (true, items), before),
        call_ensures(preload_background_submenus, (true, more), after),
        call_ensures(preload_background_submenus, (false, more), outside),
    ensures
        outside@.len() == 0,
        items@.len() == 0 ==> before@.len() == 0,
        item.kind is Submenu && item.verb is Some && (item.verb->0@ == "powershell7x64"@
            || item.verb->0@ == "windows.share"@) ==> after@ == before@.push(item.kind->token),
        !(item.kind is Submenu) || item.verb is None ==> after@ == before@,
{
    assert(more@.drop_last() =~= items@);
}

/// A submenu that is filled late shows what the registry has for its verb; sharing shows that of the
/// folder, and any other nothing.
pub proof fn law_late_submenus_are_filled(
    verb: Option<String>,
    cascade: Option<Vec<ClassicMenuItem>>,
    has_folder: bool,
    late: LateSubmenu,
)
    requires
        call_ensures(late_submenu, (&verb, cascade, has_folder), late),
    ensures
        late is Items <==> verb is Some && cascade is Some,
        late matches LateSubmenu::Items(items) ==> items == cascade->0,
        late is OfSelectedFolder <==> cascade is None && has_folder && verb is Some && verb->0@
            == "windows.share"@,
{
}

/// A submenu is found at its first position below its parent, and a command by a number that the menu
/// gives out.
pub proof fn law_positions_are_found(
    handles: &[i64],
    submenu: i64,
    result: Result<u32, IoError>,
    handle: i64,
    there: Result<i64, IoError>,
    id: u32,
    command: Option<u32>,
)
    requires
        handles@.len() <= u32::MAX,
        call_ensures(submenu_position, (handles, submenu), result),
        call_ensures(submenu_at_position, (handle,), there),
        call_ensures(command_id, (id,), command),
    ensures
        result is Ok <==> handles@.contains(submenu),
        result matches Ok(at) ==> handles@[at as int] == submenu && forall|j: int|
            0 <= j < at ==> #[trigger] handles@[j] != submenu,
        there is Ok <==> handle != 0,
        there matches Ok(found) ==> found == handle,
        command is Some <==> 1 <= id <= 0x7fff,
        command matches Some(n) ==> n == id,
{
    if result is Ok {
        assert(handles@.contains(handles@[result->Ok_0 as int]));
    }
}

} // verus!
