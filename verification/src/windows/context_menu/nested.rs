//! Menus that are read with all that lies below them.
use vstd::prelude::*;

use crate::windows::context_menu::session;
use crate::windows::context_menu::session::{menu_item, RawMenuItem, MFT_SEPARATOR};
use crate::windows::context_menu::{ClassicMenuItem, ClassicMenuItemKind};

verus! {

/// An item as the system describes it, with the items of its submenu.
#[derive(Debug)]
pub struct RawMenuTree {
    pub item: RawMenuItem,
    pub submenu: Vec<RawMenuTree>,
}

/// The item shows what the system describes, and so do all items below it.
pub open spec fn shows_tree(item: ClassicMenuItem, tree: RawMenuTree) -> bool
    decreases tree,
{
    if session::has_all(tree.item.item_type, MFT_SEPARATOR) {
        session::is_separator(item)
    } else {
        &&& session::describes_item(item, tree.item)
        &&& if tree.item.submenu == 0 {
            item.kind == ClassicMenuItemKind::Command
        } else {
            &&& item.kind matches ClassicMenuItemKind::Submenu { token, items }
            &&& token == 0
            &&& items@.len() == tree.submenu@.len()
            &&& forall|i: int|
                0 <= i < tree.submenu@.len() ==> shows_tree(
                    #[trigger] items@[i],
                    tree.submenu@[i],
                )
        }
    }
}

/// The items of a menu and of all menus below it.
pub fn read_menu_recursive(trees: Vec<RawMenuTree>) -> (items: Vec<ClassicMenuItem>)
    ensures
        items@.len() == trees@.len(),
        forall|i: int| 0 <= i < items@.len() ==> shows_tree(#[trigger] items@[i], trees@[i]),
    decreases trees,
{
    let ghost all = trees@;
    let mut left = trees;
    let mut items: Vec<ClassicMenuItem> = Vec::new();
    assert(left@ =~= all.subrange(0, all.len() as int));
    while left.len() > 0
        invariant
            all == trees@,
            items@.len() + left@.len() == all.len(),
            left@ == all.subrange(items@.len() as int, all.len() as int),
            forall|i: int| 0 <= i < items@.len() ==> shows_tree(#[trigger] items@[i], all[i]),
        decreases left@.len(),
    {
        let ghost done = items@.len() as int;
        let tree = left.remove(0);
        assert(left@ =~= all.subrange(done + 1, all.len() as int));
        assert(tree == all[done]);
        let RawMenuTree { item: raw, submenu } = tree;
        let kind = if raw.item_type & MFT_SEPARATOR != MFT_SEPARATOR && raw.submenu != 0 {
            proof {
                assert(decreases_to!(trees => trees@[done]));
                assert(decreases_to!(trees@[done] => trees@[done].submenu));
            }
            ClassicMenuItemKind::Submenu { token: 0, items: read_menu_recursive(submenu) }
        } else {
            ClassicMenuItemKind::Command
        };
        let item = menu_item(raw, kind);
        assert(shows_tree(item, all[done]));
        items.push(item);
    }
    items
}

/// A menu is read with everything below it, however deep: the items of each submenu are those of the
/// system, in its order.
pub proof fn law_a_menu_is_read_to_its_depth(
    trees: Vec<RawMenuTree>,
    items: Vec<ClassicMenuItem>,
    i: int,
    k: int,
)
    requires
        call_ensures(read_menu_recursive, (trees,), items),
        0 <= i < trees@.len(),
    ensures
        items@.len() == trees@.len(),
        items@[i].kind is Separator <==> trees@[i].item.item_type & 0x800 == 0x800,
        items@[i].kind is Submenu <==> trees@[i].item.item_type & 0x800 != 0x800
            && trees@[i].item.submenu != 0,
        items@[i].kind is Submenu ==> items@[i].kind->items@.len() == trees@[i].submenu@.len()
            && items@[i].kind->token == 0,
        items@[i].kind is Command && 1 <= trees@[i].item.id <= 0x7fff ==> items@[i].command_id
            == Some(trees@[i].item.id),
        items@[i].kind is Submenu && 0 <= k < trees@[i].submenu@.len() ==> {
            let below = items@[i].kind->items@[k];
            let raw = trees@[i].submenu@[k].item;
            &&& below.kind is Separator <==> raw.item_type & 0x800 == 0x800
            &&& below.kind is Submenu <==> raw.item_type & 0x800 != 0x800 && raw.submenu != 0
            &&& below.kind is Command && 1 <= raw.id <= 0x7fff ==> below.command_id == Some(raw.id)
            &&& !(below.kind is Separator) ==> (below.enabled <==> raw.state & 3 != 3)
        },
{
    reveal_with_fuel(shows_tree, 3);
    assert(shows_tree(items@[i], trees@[i]));
    if items@[i].kind is Submenu && 0 <= k < trees@[i].submenu@.len() {
        assert(shows_tree(items@[i].kind->items@[k], trees@[i].submenu@[k]));
    }
}

} // verus!
