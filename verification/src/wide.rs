//! Sequences of UTF-16 code units, the form in which Windows hands over names and paths.
use vstd::prelude::*;

verus! {

pub const BACKSLASH: u16 = 0x5c;

pub const SLASH: u16 = 0x2f;

pub const COLON: u16 = 0x3a;

pub const DOT: u16 = 0x2e;

pub const QUOTE: u16 = 0x22;

pub const COMMA: u16 = 0x2c;

pub const QUESTION: u16 = 0x3f;

/// The unit with an ASCII capital replaced by its small letter.
pub open spec fn lower_unit_spec(unit: u16) -> u16 {
    if 0x41 <= unit <= 0x5a {
        (unit + 0x20) as u16
    } else {
        unit
    }
}

/// The sequence with every ASCII capital replaced by its small letter.
pub open spec fn ascii_lower(units: Seq<u16>) -> Seq<u16> {
    Seq::new(units.len(), |i: int| lower_unit_spec(units[i]))
}

pub fn lower_unit(unit: u16) -> (lowered: u16)
    ensures
        lowered == lower_unit_spec(unit),
{
    if 0x41 <= unit && unit <= 0x5a {
        unit + 0x20
    } else {
        unit
    }
}

pub fn units_eq(left: &[u16], right: &[u16]) -> (equal: bool)
    ensures
        equal == (left@ == right@),
{
    if left.len() != right.len() {
        return false;
    }
    let mut i: usize = 0;
    while i < left.len()
        invariant
            i <= left@.len(),
            left@.len() == right@.len(),
            forall|j: int| 0 <= j < i ==> left@[j] == right@[j],
        decreases left@.len() - i,
    {
        if left[i] != right[i] {
            return false;
        }
        i += 1;
    }
    assert(left@ =~= right@);
    true
}

/// A copy of the units from `start` up to `end`.
pub fn units_copy(units: &[u16], start: usize, end: usize) -> (copy: Vec<u16>)
    requires
        start <= end <= units@.len(),
    ensures
        copy@ == units@.subrange(start as int, end as int),
{
    vstd::slice::slice_to_vec(vstd::slice::slice_subrange(units, start, end))
}

/// The two sequences are the same up to ASCII capitals.
pub fn units_eq_ignore_case(left: &[u16], right: &[u16]) -> (equal: bool)
    ensures
        equal == (ascii_lower(left@) == ascii_lower(right@)),
{
    if left.len() != right.len() {
        assert(ascii_lower(left@).len() != ascii_lower(right@).len());
        return false;
    }
    let mut i: usize = 0;
    while i < left.len()
        invariant
            i <= left@.len(),
            left@.len() == right@.len(),
            forall|j: int|
                0 <= j < i ==> lower_unit_spec(#[trigger] left@[j]) == lower_unit_spec(right@[j]),
        decreases left@.len() - i,
    {
        if lower_unit(left[i]) != lower_unit(right[i]) {
            assert(ascii_lower(left@)[i as int] != ascii_lower(right@)[i as int]);
            return false;
        }
        i += 1;
    }
    assert(ascii_lower(left@) =~= ascii_lower(right@));
    true
}

pub fn lower_units(units: &[u16]) -> (lowered: Vec<u16>)
    ensures
        lowered@ == ascii_lower(units@),
{
    let mut lowered: Vec<u16> = Vec::new();
    let mut i: usize = 0;
    while i < units.len()
        invariant
            i <= units@.len(),
            lowered@ == ascii_lower(units@).subrange(0, i as int),
        decreases units@.len() - i,
    {
        lowered.push(lower_unit(units[i]));
        i += 1;
        assert(lowered@ =~= ascii_lower(units@).subrange(0, i as int));
    }
    assert(lowered@ =~= ascii_lower(units@));
    lowered
}

pub fn has_prefix(units: &[u16], prefix: &[u16]) -> (found: bool)
    ensures
        found == prefix@.is_prefix_of(units@),
{
    if units.len() < prefix.len() {
        return false;
    }
    units_eq(vstd::slice::slice_subrange(units, 0, prefix.len()), prefix)
}

pub fn contains_unit(units: &[u16], wanted: u16) -> (found: bool)
    ensures
        found == units@.contains(wanted),
{
    let mut i: usize = 0;
    while i < units.len()
        invariant
            i <= units@.len(),
            forall|j: int| 0 <= j < i ==> units@[j] != wanted,
        decreases units@.len() - i,
    {
        if units[i] == wanted {
            return true;
        }
        i += 1;
    }
    false
}

/// The units before the first NUL, or all of them when there is none.
pub open spec fn before_nul(units: Seq<u16>) -> Seq<u16>
    decreases units.len(),
{
    if units.len() == 0 || units[0] == 0 {
        Seq::empty()
    } else {
        seq![units[0]] + before_nul(units.subrange(1, units.len() as int))
    }
}

pub fn take_before_nul(units: &[u16]) -> (kept: Vec<u16>)
    ensures
        kept@ == before_nul(units@),
{
    let mut kept: Vec<u16> = Vec::new();
    let mut i: usize = 0;
    let n: usize = units.len();
    assert(units@.subrange(0, n as int) =~= units@);
    while i < n && units[i] != 0
        invariant
            i <= n,
            n == units@.len(),
            before_nul(units@) == kept@ + before_nul(units@.subrange(i as int, n as int)),
        decreases n - i,
    {
        proof {
            let rest = units@.subrange(i as int, n as int);
            assert(rest.subrange(1, rest.len() as int) =~= units@.subrange(i + 1, n as int));
        }
        kept.push(units[i]);
        i += 1;
        assert(before_nul(units@) =~= kept@ + before_nul(units@.subrange(i as int, n as int)));
    }
    assert(kept@ =~= before_nul(units@));
    kept
}

pub fn push_units(units: &mut Vec<u16>, more: &[u16])
    ensures
        final(units)@ == old(units)@ + more@,
{
    let mut i: usize = 0;
    while i < more.len()
        invariant
            i <= more@.len(),
            units@ == old(units)@ + more@.subrange(0, i as int),
        decreases more@.len() - i,
    {
        units.push(more[i]);
        i += 1;
        assert(units@ =~= old(units)@ + more@.subrange(0, i as int));
    }
    assert(units@ =~= old(units)@ + more@);
}

/// Units without a NUL are kept whole; a NUL cuts off all that follows it.
pub proof fn lemma_no_nul(units: Seq<u16>)
    requires
        !units.contains(0),
    ensures
        before_nul(units) == units,
    decreases units.len(),
{
    if units.len() > 0 {
        assert(units[0] != 0);
        let rest = units.subrange(1, units.len() as int);
        assert forall|i: int| 0 <= i < rest.len() implies rest[i] != 0 by {
            assert(rest[i] == units[i + 1]);
        }
        lemma_no_nul(rest);
        assert(seq![units[0]] + rest =~= units);
    } else {
        assert(before_nul(units) =~= units);
    }
}

/// What stands before the end mark is taken whole, whatever stands behind it.
pub proof fn law_text_ends_at_its_mark(text: Seq<u16>, junk: Seq<u16>, units: &[u16], kept: Vec<u16>)
    requires
        !text.contains(0),
        units@ == text.push(0) + junk,
        call_ensures(take_before_nul, (units,), kept),
    ensures
        kept@ == text,
{
    lemma_marked(text, junk);
}

pub proof fn lemma_marked(text: Seq<u16>, junk: Seq<u16>)
    requires
        !text.contains(0),
    ensures
        before_nul(text.push(0) + junk) == text,
    decreases text.len(),
{
    let all = text.push(0) + junk;
    if text.len() > 0 {
        assert(all[0] == text[0] && text[0] != 0);
        let rest = text.subrange(1, text.len() as int);
        assert forall|i: int| 0 <= i < rest.len() implies rest[i] != 0 by {
            assert(rest[i] == text[i + 1]);
        }
        assert(all.subrange(1, all.len() as int) =~= rest.push(0) + junk);
        lemma_marked(rest, junk);
        assert(seq![text[0]] + rest =~= text);
    } else {
        assert(all[0] == 0);
        assert(before_nul(all) =~= text);
    }
}

} // verus!
