//! Little-endian numbers and UTF-16 units in byte buffers.
use vstd::prelude::*;

verus! {

/// The 16-bit number at a position.
pub open spec fn le16(b: Seq<u8>, at: int) -> u16 {
    (b[at] + b[at + 1] * 0x100) as u16
}

/// The 32-bit number at a position.
pub open spec fn le32(b: Seq<u8>, at: int) -> u32 {
    (le16(b, at) + le16(b, at + 2) * 0x1_0000) as u32
}

/// The 64-bit number at a position.
pub open spec fn le64(b: Seq<u8>, at: int) -> u64 {
    (le32(b, at) + le32(b, at + 4) * 0x1_0000_0000) as u64
}

pub open spec fn bytes16(value: u16) -> Seq<u8> {
    seq![(value % 0x100) as u8, (value / 0x100) as u8]
}

pub open spec fn bytes32(value: u32) -> Seq<u8> {
    bytes16((value % 0x1_0000) as u16) + bytes16((value / 0x1_0000) as u16)
}

pub open spec fn bytes64(value: u64) -> Seq<u8> {
    bytes32((value % 0x1_0000_0000) as u32) + bytes32((value / 0x1_0000_0000) as u32)
}

/// The units whose bytes fill the buffer; an odd last byte is left out.
pub open spec fn units_in(b: Seq<u8>) -> Seq<u16> {
    Seq::new(b.len() / 2, |i: int| le16(b, 2 * i))
}

/// The bytes of the units, each the low byte first.
pub open spec fn unit_bytes(units: Seq<u16>) -> Seq<u8> {
    Seq::new(
        2 * units.len(),
        |k: int|
            if k % 2 == 0 {
                (units[k / 2] % 0x100) as u8
            } else {
                (units[k / 2] / 0x100) as u8
            },
    )
}

pub fn read_u16(b: &[u8], at: usize) -> (value: u16)
    requires
        at + 2 <= b@.len(),
    ensures
        value == le16(b@, at as int),
{
    (b[at] as u16) + (b[at + 1] as u16) * 0x100
}

pub fn read_u32(b: &[u8], at: usize) -> (value: u32)
    requires
        at + 4 <= b@.len(),
    ensures
        value == le32(b@, at as int),
{
    let _ = b.len();
    (read_u16(b, at) as u32) + (read_u16(b, at + 2) as u32) * 0x1_0000
}

pub fn read_u64(b: &[u8], at: usize) -> (value: u64)
    requires
        at + 8 <= b@.len(),
    ensures
        value == le64(b@, at as int),
{
    let _ = b.len();
    (read_u32(b, at) as u64) + (read_u32(b, at + 4) as u64) * 0x1_0000_0000
}

pub fn push_u16(b: &mut Vec<u8>, value: u16)
    ensures
        final(b)@ == old(b)@ + bytes16(value),
{
    b.push((value % 0x100) as u8);
    b.push((value / 0x100) as u8);
    assert(b@ =~= old(b)@ + bytes16(value));
}

pub fn push_u32(b: &mut Vec<u8>, value: u32)
    ensures
        final(b)@ == old(b)@ + bytes32(value),
{
    push_u16(b, (value % 0x1_0000) as u16);
    push_u16(b, (value / 0x1_0000) as u16);
    assert(b@ =~= old(b)@ + bytes32(value));
}

pub fn push_u64(b: &mut Vec<u8>, value: u64)
    ensures
        final(b)@ == old(b)@ + bytes64(value),
{
    push_u32(b, (value % 0x1_0000_0000) as u32);
    push_u32(b, (value / 0x1_0000_0000) as u32);
    assert(b@ =~= old(b)@ + bytes64(value));
}

pub fn push_bytes(b: &mut Vec<u8>, more: &[u8])
    ensures
        final(b)@ == old(b)@ + more@,
{
    let mut i: usize = 0;
    while i < more.len()
        invariant
            i <= more@.len(),
            b@ == old(b)@ + more@.subrange(0, i as int),
        decreases more@.len() - i,
    {
        b.push(more[i]);
        i += 1;
        assert(b@ =~= old(b)@ + more@.subrange(0, i as int));
    }
    assert(b@ =~= old(b)@ + more@);
}

/// Appends the bytes of the units.
pub fn push_unit_bytes(b: &mut Vec<u8>, units: &[u16])
    ensures
        final(b)@ == old(b)@ + unit_bytes(units@),
{
    let mut i: usize = 0;
    while i < units.len()
        invariant
            i <= units@.len(),
            b@ == old(b)@ + unit_bytes(units@.subrange(0, i as int)),
        decreases units@.len() - i,
    {
        push_u16(b, units[i]);
        i += 1;
        assert(b@ =~= old(b)@ + unit_bytes(units@.subrange(0, i as int)));
    }
    assert(units@.subrange(0, i as int) =~= units@);
}

/// The units between two positions of the buffer.
pub fn read_units(b: &[u8], start: usize, count: usize) -> (units: Vec<u16>)
    requires
        start + 2 * count <= b@.len(),
    ensures
        units@ == units_in(b@.subrange(start as int, start + 2 * count)),
{
    let mut units: Vec<u16> = Vec::new();
    let mut i: usize = 0;
    let n: usize = b.len();
    let ghost window = b@.subrange(start as int, start + 2 * count);
    while i < count
        invariant
            i <= count,
            start + 2 * count <= n,
            n == b@.len(),
            window == b@.subrange(start as int, start + 2 * count),
            units@ == units_in(window).subrange(0, i as int),
        decreases count - i,
    {
        units.push(read_u16(b, start + 2 * i));
        i += 1;
        assert(units@ =~= units_in(window).subrange(0, i as int));
    }
    assert(units@ =~= units_in(window));
    units
}

pub proof fn lemma_le16(before: Seq<u8>, value: u16, after: Seq<u8>)
    ensures
        le16(before + bytes16(value) + after, before.len() as int) == value,
{
}

pub proof fn lemma_le32(before: Seq<u8>, value: u32, after: Seq<u8>)
    ensures
        le32(before + bytes32(value) + after, before.len() as int) == value,
{
    let b = before + bytes32(value) + after;
    let low = bytes16((value % 0x1_0000) as u16);
    let high = bytes16((value / 0x1_0000) as u16);
    assert(b =~= before + low + (high + after));
    assert(b =~= (before + low) + high + after);
    lemma_le16(before, (value % 0x1_0000) as u16, high + after);
    lemma_le16(before + low, (value / 0x1_0000) as u16, after);
}

pub proof fn lemma_le64(before: Seq<u8>, value: u64, after: Seq<u8>)
    ensures
        le64(before + bytes64(value) + after, before.len() as int) == value,
{
    let b = before + bytes64(value) + after;
    let low = bytes32((value % 0x1_0000_0000) as u32);
    let high = bytes32((value / 0x1_0000_0000) as u32);
    assert(b =~= before + low + (high + after));
    assert(b =~= (before + low) + high + after);
    lemma_le32(before, (value % 0x1_0000_0000) as u32, high + after);
    lemma_le32(before + low, (value / 0x1_0000_0000) as u32, after);
}

/// A number's bytes are those that it was read from.
pub proof fn lemma_bytes16(b: Seq<u8>, at: int)
    requires
        0 <= at,
        at + 2 <= b.len(),
    ensures
        bytes16(le16(b, at)) == b.subrange(at, at + 2),
{
    assert(bytes16(le16(b, at)) =~= b.subrange(at, at + 2));
}

pub proof fn lemma_bytes32(b: Seq<u8>, at: int)
    requires
        0 <= at,
        at + 4 <= b.len(),
    ensures
        bytes32(le32(b, at)) == b.subrange(at, at + 4),
{
    lemma_bytes16(b, at);
    lemma_bytes16(b, at + 2);
    assert(le32(b, at) % 0x1_0000 == le16(b, at));
    assert(le32(b, at) / 0x1_0000 == le16(b, at + 2));
    assert(bytes32(le32(b, at)) =~= b.subrange(at, at + 4));
}

pub proof fn lemma_bytes64(b: Seq<u8>, at: int)
    requires
        0 <= at,
        at + 8 <= b.len(),
    ensures
        bytes64(le64(b, at)) == b.subrange(at, at + 8),
{
    lemma_bytes32(b, at);
    lemma_bytes32(b, at + 4);
    lemma_halves(le32(b, at), le32(b, at + 4));
    assert(b.subrange(at, at + 8) =~= b.subrange(at, at + 4) + b.subrange(at + 4, at + 8));
}

proof fn lemma_halves(low: u32, high: u32)
    ensures
        ({
            let whole = (low + high * 0x1_0000_0000) as u64;
            whole % 0x1_0000_0000 == low && whole / 0x1_0000_0000 == high
        }),
{
}

/// Reading the bytes of the units gives the units back.
pub proof fn law_units_round_trip(units: Seq<u16>)
    ensures
        units_in(unit_bytes(units)) == units,
{
    let b = unit_bytes(units);
    assert forall|i: int| 0 <= i < units.len() implies units_in(b)[i] == units[i] by {
        assert(b[2 * i] == (units[i] % 0x100) as u8);
        assert(b[2 * i + 1] == (units[i] / 0x100) as u8);
    }
    assert(units_in(b) =~= units);
}

/// A number of two bytes that is written is read back, from where it was written; its lowest byte comes first, and
/// nothing before it changes.
pub proof fn law_u16_is_read_back(b: &mut Vec<u8>, value: u16, sent: &[u8], read: u16)
    requires
        old(b)@.len() + 2 <= usize::MAX,
        call_ensures(push_u16, (b, value), ()),
        sent@ == final(b)@,
        call_ensures(read_u16, (sent, old(b)@.len() as usize), read),
    ensures
        sent@.len() == old(b)@.len() + 2,
        read == value,
        sent@[old(b)@.len() as int] == value % 0x100,
        forall|i: int| 0 <= i < old(b)@.len() ==> sent@[i] == #[trigger] old(b)@[i],
{
    let none = Seq::<u8>::empty();
    assert(sent@ =~= old(b)@ + bytes16(value) + none);
    lemma_le16(old(b)@, value, none);
}

/// A number of four bytes that is written is read back, from where it was written; its lowest byte comes first, and
/// nothing before it changes.
pub proof fn law_u32_is_read_back(b: &mut Vec<u8>, value: u32, sent: &[u8], read: u32)
    requires
        old(b)@.len() + 4 <= usize::MAX,
        call_ensures(push_u32, (b, value), ()),
        sent@ == final(b)@,
        call_ensures(read_u32, (sent, old(b)@.len() as usize), read),
    ensures
        sent@.len() == old(b)@.len() + 4,
        read == value,
        sent@[old(b)@.len() as int] == value % 0x100,
        forall|i: int| 0 <= i < old(b)@.len() ==> sent@[i] == #[trigger] old(b)@[i],
{
    let none = Seq::<u8>::empty();
    assert(sent@ =~= old(b)@ + bytes32(value) + none);
    lemma_le32(old(b)@, value, none);
}

/// A number of eight bytes that is written is read back, from where it was written; its lowest byte comes first, and
/// nothing before it changes.
pub proof fn law_u64_is_read_back(b: &mut Vec<u8>, value: u64, sent: &[u8], read: u64)
    requires
        old(b)@.len() + 8 <= usize::MAX,
        call_ensures(push_u64, (b, value), ()),
        sent@ == final(b)@,
        call_ensures(read_u64, (sent, old(b)@.len() as usize), read),
    ensures
        sent@.len() == old(b)@.len() + 8,
        read == value,
        sent@[old(b)@.len() as int] == value % 0x100,
        forall|i: int| 0 <= i < old(b)@.len() ==> sent@[i] == #[trigger] old(b)@[i],
{
    let none = Seq::<u8>::empty();
    assert(sent@ =~= old(b)@ + bytes64(value) + none);
    lemma_le64(old(b)@, value, none);
}

} // verus!
