//! An image of the part of the registry that a registration touches, with a log of its changes.
//!
//! The caller reads the values into an image, lets a registration work on it, and carries out the
//! logged operations one after the other.
use vstd::prelude::*;

use crate::bytes::push_bytes;
use crate::text::{str_chars, text_of, texts_equal};

verus! {

pub const REG_SZ: u32 = 1;

pub const REG_EXPAND_SZ: u32 = 2;

pub const REG_BINARY: u32 = 3;

pub const REG_DWORD: u32 = 4;

#[derive(Debug, Clone, PartialEq, Eq)]
pub struct RegistryValue {
    pub value_type: u32,
    pub data: Vec<u8>,
}

#[derive(Debug)]
pub struct RegistryEntry {
    pub key: String,
    pub name: String,
    pub value: RegistryValue,
}

/// A change of the registry.
#[derive(Debug)]
pub enum RegistryOperation {
    Write { key: String, name: String, value: RegistryValue },
    DeleteValue { key: String, name: String },
    DeleteTree { key: String },
}

// ---- the model ----

/// A value of the registry.
pub struct Value {
    pub value_type: u32,
    pub data: Seq<u8>,
}

/// The place of a value: the path of its key, and its name there.
pub struct Slot {
    pub key: Seq<char>,
    pub name: Seq<char>,
}

pub type Registry = Map<Slot, Value>;

pub open spec fn slot(key: Seq<char>, name: Seq<char>) -> Slot {
    Slot { key, name }
}

impl View for RegistryValue {
    type V = Value;

    open spec fn view(&self) -> Value {
        Value { value_type: self.value_type, data: self.data@ }
    }
}

pub open spec fn value_view(value: Option<RegistryValue>) -> Option<Value> {
    match value {
        Some(value) => Some(value@),
        None => None,
    }
}

pub open spec fn entry_slot(entry: RegistryEntry) -> Slot {
    slot(entry.key@, entry.name@)
}

/// The registry that a list of entries describes; a later entry replaces an earlier one.
pub open spec fn described(entries: Seq<RegistryEntry>) -> Registry
    decreases entries.len(),
{
    if entries.len() == 0 {
        Map::empty()
    } else {
        described(entries.drop_last()).insert(entry_slot(entries.last()), entries.last().value@)
    }
}

/// The key is the other one, or lies below it.
pub open spec fn is_under(key: Seq<char>, path: Seq<char>) -> bool {
    key == path || (key.len() > path.len() && key.subrange(0, path.len() as int) == path
        && key[path.len() as int] == '\\')
}

/// The registry without a key and all keys below it.
pub open spec fn without_tree(registry: Registry, path: Seq<char>) -> Registry {
    Map::new(
        |at: Slot| registry.contains_key(at) && !is_under(at.key, path),
        |at: Slot| registry[at],
    )
}

/// A change as a mathematical value.
pub enum Change {
    Write(Slot, Value),
    DeleteValue(Slot),
    DeleteTree(Seq<char>),
}

impl View for RegistryOperation {
    type V = Change;

    open spec fn view(&self) -> Change {
        match self {
            RegistryOperation::Write { key, name, value } => Change::Write(
                slot(key@, name@),
                value@,
            ),
            RegistryOperation::DeleteValue { key, name } => Change::DeleteValue(slot(key@, name@)),
            RegistryOperation::DeleteTree { key } => Change::DeleteTree(key@),
        }
    }
}

/// The registry after a change.
pub open spec fn changed(registry: Registry, change: Change) -> Registry {
    match change {
        Change::Write(at, value) => registry.insert(at, value),
        Change::DeleteValue(at) => registry.remove(at),
        Change::DeleteTree(path) => without_tree(registry, path),
    }
}

/// The registry after a row of changes.
pub open spec fn replayed(registry: Registry, log: Seq<RegistryOperation>) -> Registry
    decreases log.len(),
{
    if log.len() == 0 {
        registry
    } else {
        changed(replayed(registry, log.drop_last()), log.last()@)
    }
}

// ---- the image ----

pub struct RegistryImage {
    entries: Vec<RegistryEntry>,
    log: Vec<RegistryOperation>,
    origin: Ghost<Registry>,
}

impl View for RegistryImage {
    type V = Registry;

    closed spec fn view(&self) -> Registry {
        described(self.entries@)
    }
}

fn key_is_under(key: &str, path: &str) -> (under: bool)
    ensures
        under == is_under(key@, path@),
{
    let key_chars = str_chars(key);
    let path_chars = str_chars(path);
    let n: usize = key_chars.len();
    let m: usize = path_chars.len();
    if n < m {
        return false;
    }
    let head = vstd::slice::slice_subrange(key_chars.as_slice(), 0, m);
    let starts = crate::text::chars_eq(head, path_chars.as_slice());
    proof {
        if n == m {
            assert(key@.subrange(0, m as int) =~= key@);
        }
    }
    starts && (n == m || key_chars[m] == '\\')
}

impl RegistryImage {
    /// The registry as it was when the image was made.
    pub closed spec fn origin(&self) -> Registry {
        self.origin@
    }

    /// The logged operations turn the registry as it was into the one that the image shows.
    pub closed spec fn consistent(&self) -> bool {
        replayed(self.origin@, self.log@) == self@
    }

    /// The logged operations.
    pub closed spec fn logged(&self) -> Seq<RegistryOperation> {
        self.log@
    }

    /// The log has only been added to since then.
    pub open spec fn grew(&self, before: &RegistryImage) -> bool {
        &&& before.logged().len() <= self.logged().len()
        &&& self.logged().subrange(0, before.logged().len() as int) == before.logged()
    }

    /// An image of the registry that holds these values.
    pub fn load(entries: Vec<RegistryEntry>) -> (image: RegistryImage)
        ensures
            image@ == described(entries@),
            image.origin() == image@,
            image.logged().len() == 0,
            image.consistent(),
    {
        RegistryImage { entries, log: Vec::new(), origin: Ghost(described(entries@)) }
    }

    /// The operations to carry out, in their order.
    pub fn operations(&self) -> (log: &[RegistryOperation])
        requires
            self.consistent(),
        ensures
            log@ == self.logged(),
            replayed(self.origin(), log@) == self@,
    {
        self.log.as_slice()
    }

    pub fn read_value(&self, key: &str, name: &str) -> (value: Option<RegistryValue>)
        ensures
            value_view(value) == self@.get(slot(key@, name@)),
    {
        let ghost wanted = slot(key@, name@);
        let mut i: usize = self.entries.len();
        assert(self.entries@.subrange(0, i as int) =~= self.entries@);
        while i > 0
            invariant
                i <= self.entries@.len(),
                wanted == slot(key@, name@),
                self@.get(wanted) == described(self.entries@.subrange(0, i as int)).get(wanted),
            decreases i,
        {
            let ghost seen = self.entries@.subrange(0, i as int);
            assert(seen.drop_last() =~= self.entries@.subrange(0, i - 1));
            i -= 1;
            assert(seen.last() == self.entries@[i as int]);
            if texts_equal(self.entries[i].key.as_str(), key) && texts_equal(
                self.entries[i].name.as_str(),
                name,
            ) {
                let value = copy_value(&self.entries[i].value);
                return Some(value);
            }
            assert(entry_slot(self.entries@[i as int]) != wanted);
        }
        None
    }

    pub fn write_raw(&mut self, key: &str, name: &str, value_type: u32, data: &[u8])
        requires
            old(self).consistent(),
        ensures
            final(self)@ == old(self)@.insert(
                slot(key@, name@),
                Value { value_type, data: data@ },
            ),
            final(self).consistent(),
            final(self).origin() == old(self).origin(),
            final(self).grew(old(self)),
    {
        let value = make_value(value_type, data);
        let logged = make_value(value_type, data);
        let ghost before = self.entries@;
        let ghost log_before = self.log@;
        let entry = RegistryEntry { key: text_of(key), name: text_of(name), value };
        let operation = RegistryOperation::Write {
            key: text_of(key),
            name: text_of(name),
            value: logged,
        };
        self.entries.push(entry);
        self.log.push(operation);
        assert(self.entries@.drop_last() =~= before);
        assert(self.log@.drop_last() =~= log_before);
        assert(self.log@.subrange(0, log_before.len() as int) =~= log_before);
    }

    pub fn delete_value(&mut self, key: &str, name: &str)
        requires
            old(self).consistent(),
        ensures
            final(self)@ == old(self)@.remove(slot(key@, name@)),
            final(self).consistent(),
            final(self).origin() == old(self).origin(),
            final(self).grew(old(self)),
    {
        let ghost before = self.entries@;
        let ghost log_before = self.log@;
        let ghost gone = slot(key@, name@);
        let mut left: Vec<RegistryEntry> = Vec::new();
        std::mem::swap(&mut left, &mut self.entries);
        let mut kept: Vec<RegistryEntry> = Vec::new();
        let ghost mut done: int = 0;
        assert(left@ =~= before.subrange(0, before.len() as int));
        assert(described(kept@) =~= described(before.subrange(0, 0)).remove(gone));
        while left.len() > 0
            invariant
                0 <= done <= before.len(),
                gone == slot(key@, name@),
                left@ == before.subrange(done, before.len() as int),
                described(kept@) == described(before.subrange(0, done)).remove(gone),
            decreases left@.len(),
        {
            let ghost next = before.subrange(0, done + 1);
            assert(next.drop_last() =~= before.subrange(0, done));
            assert(next.last() == left@[0]);
            let entry = left.remove(0);
            assert(left@ =~= before.subrange(done + 1, before.len() as int));
            if !(texts_equal(entry.key.as_str(), key) && texts_equal(entry.name.as_str(), name)) {
                let ghost kept_before = kept@;
                let ghost at = entry_slot(entry);
                let ghost value = entry.value@;
                assert(at != gone);
                kept.push(entry);
                assert(kept@.drop_last() =~= kept_before);
                assert(described(kept@) =~= described(next).remove(gone));
            } else {
                assert(described(kept@) =~= described(next).remove(gone));
            }
            proof {
                done = done + 1;
            }
        }
        assert(before.subrange(0, done) =~= before);
        self.entries = kept;
        self.log.push(RegistryOperation::DeleteValue { key: text_of(key), name: text_of(name) });
        assert(self.log@.drop_last() =~= log_before);
        assert(self.log@.subrange(0, log_before.len() as int) =~= log_before);
    }

    pub fn delete_tree(&mut self, path: &str)
        requires
            old(self).consistent(),
        ensures
            final(self)@ == without_tree(old(self)@, path@),
            final(self).consistent(),
            final(self).origin() == old(self).origin(),
            final(self).grew(old(self)),
    {
        let ghost before = self.entries@;
        let ghost log_before = self.log@;
        let mut left: Vec<RegistryEntry> = Vec::new();
        std::mem::swap(&mut left, &mut self.entries);
        let mut kept: Vec<RegistryEntry> = Vec::new();
        let ghost mut done: int = 0;
        assert(left@ =~= before.subrange(0, before.len() as int));
        assert(described(kept@) =~= without_tree(described(before.subrange(0, 0)), path@));
        while left.len() > 0
            invariant
                0 <= done <= before.len(),
                left@ == before.subrange(done, before.len() as int),
                described(kept@) == without_tree(described(before.subrange(0, done)), path@),
            decreases left@.len(),
        {
            let ghost next = before.subrange(0, done + 1);
            assert(next.drop_last() =~= before.subrange(0, done));
            assert(next.last() == left@[0]);
            let entry = left.remove(0);
            assert(left@ =~= before.subrange(done + 1, before.len() as int));
            if !key_is_under(entry.key.as_str(), path) {
                let ghost kept_before = kept@;
                kept.push(entry);
                assert(kept@.drop_last() =~= kept_before);
                assert(described(kept@) =~= without_tree(described(next), path@));
            } else {
                assert(described(kept@) =~= without_tree(described(next), path@));
            }
            proof {
                done = done + 1;
            }
        }
        assert(before.subrange(0, done) =~= before);
        self.entries = kept;
        self.log.push(RegistryOperation::DeleteTree { key: text_of(path) });
        assert(self.log@.drop_last() =~= log_before);
        assert(self.log@.subrange(0, log_before.len() as int) =~= log_before);
    }

    /// The number of logged operations.
    pub fn logged_count(&self) -> (count: usize)
        ensures
            count == self.logged().len(),
    {
        self.log.len()
    }
}

/// An image grew where nothing was added.
pub proof fn lemma_grew_by_nothing(image: &RegistryImage)
    ensures
        image.grew(image),
{
    assert(image.logged().subrange(0, image.logged().len() as int) =~= image.logged());
}

/// An image that grew twice grew.
pub proof fn lemma_grew_again(first: &RegistryImage, second: &RegistryImage, third: &RegistryImage)
    requires
        second.grew(first),
        third.grew(second),
    ensures
        third.grew(first),
{
    let n = first.logged().len() as int;
    assert(third.logged().subrange(0, n) =~= second.logged().subrange(0, n));
}

/// What the logged operations of an image lead to.
pub proof fn lemma_consistent(image: &RegistryImage)
    requires
        image.consistent(),
    ensures
        replayed(image.origin(), image.logged()) == image@,
{
}

pub fn make_value(value_type: u32, data: &[u8]) -> (value: RegistryValue)
    ensures
        value@ == (Value { value_type, data: data@ }),
{
    let mut copy: Vec<u8> = Vec::new();
    push_bytes(&mut copy, data);
    assert(copy@ =~= data@);
    RegistryValue { value_type, data: copy }
}

pub fn copy_value(value: &RegistryValue) -> (copy: RegistryValue)
    ensures
        copy@ == value@,
{
    make_value(value.value_type, value.data.as_slice())
}

} // verus!
