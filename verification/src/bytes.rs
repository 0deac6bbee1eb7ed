//! Byte sequences: comparison, search, big-endian integers and UTF-8 text.
use vstd::prelude::*;
use vstd::utf8::{decode_utf8, encode_utf8, valid_utf8};

verus! {

/// The byte lists that a vector of byte vectors holds.
pub open spec fn byte_lists(lists: Seq<Vec<u8>>) -> Seq<Seq<u8>> {
    lists.map_values(|list: Vec<u8>| list@)
}

/// The number of bytes in all the lists together.
pub open spec fn total_length(lists: Seq<Seq<u8>>) -> nat
    decreases lists.len(),
{
    if lists.len() == 0 {
        0
    } else {
        total_length(lists.drop_last()) + lists.last().len()
    }
}

/// `prefix` stands in `bytes` from position `index` on.
pub open spec fn stands_at(bytes: Seq<u8>, index: int, prefix: Seq<u8>) -> bool {
    &&& 0 <= index
    &&& index + prefix.len() <= bytes.len()
    &&& bytes.subrange(index, index + prefix.len()) == prefix
}

/// Whether two byte strings are equal.
pub fn same_bytes(left: &[u8], right: &[u8]) -> (same: bool)
    ensures
        same == (left@ == right@),
{
    if left.len() != right.len() {
        return false;
    }
    let mut index: usize = 0;
    while index < left.len()
        invariant
            index <= left.len(),
            left.len() == right.len(),
            forall|i: int| 0 <= i < index ==> left@[i] == right@[i],
        decreases left.len() - index,
    {
        if left[index] != right[index] {
            return false;
        }
        index = index + 1;
    }
    assert(left@ =~= right@);
    true
}

/// Whether `prefix` stands in `bytes` at position `index`.
pub fn is_at(bytes: &[u8], index: usize, prefix: &[u8]) -> (found: bool)
    ensures
        found == stands_at(bytes@, index as int, prefix@),
{
    if index > bytes.len() || prefix.len() > bytes.len() - index {
        return false;
    }
    let mut offset: usize = 0;
    while offset < prefix.len()
        invariant
            offset <= prefix.len(),
            index + prefix.len() <= bytes.len(),
            forall|i: int| 0 <= i < offset ==> bytes@[index + i] == #[trigger] prefix@[i],
        decreases prefix.len() - offset,
    {
        if bytes[index + offset] != prefix[offset] {
            assert(bytes@.subrange(index as int, index + prefix.len())[offset as int] != prefix@[offset as int]);
            return false;
        }
        offset = offset + 1;
    }
    assert(bytes@.subrange(index as int, index + prefix.len()) =~= prefix@);
    true
}

/// Whether `byte` occurs in `bytes`.
pub fn has_byte(bytes: &[u8], byte: u8) -> (found: bool)
    ensures
        found == bytes@.contains(byte),
{
    let mut index: usize = 0;
    while index < bytes.len()
        invariant
            index <= bytes.len(),
            forall|i: int| 0 <= i < index ==> bytes@[i] != byte,
        decreases bytes.len() - index,
    {
        if bytes[index] == byte {
            return true;
        }
        index = index + 1;
    }
    false
}

/// Whether two texts are equal, character by character.
pub fn same_text(left: &str, right: &str) -> (same: bool)
    ensures
        same == (left@ == right@),
{
    proof {
        vstd::utf8::encode_utf8_decode_utf8(left@);
        vstd::utf8::encode_utf8_decode_utf8(right@);
    }
    same_bytes(left.as_bytes(), right.as_bytes())
}

/// An owned copy of `bytes`.
pub fn copy_bytes(bytes: &[u8]) -> (copy: Vec<u8>)
    ensures
        copy@ == bytes@,
{
    let mut copy: Vec<u8> = Vec::new();
    copy.extend_from_slice(bytes);
    assert(copy@ =~= bytes@);
    copy
}

/// `value` in `width` bytes, most significant first.
pub open spec fn be_bytes(value: nat, width: nat) -> Seq<u8>
    decreases width,
{
    if width == 0 {
        Seq::empty()
    } else {
        be_bytes(value / 256, (width - 1) as nat).push((value % 256) as u8)
    }
}

/// The number that bytes stand for, most significant first.
pub open spec fn be_value(bytes: Seq<u8>) -> nat
    decreases bytes.len(),
{
    if bytes.len() == 0 {
        0
    } else {
        be_value(bytes.drop_last()) * 256 + bytes.last() as nat
    }
}

/// `256^width`, the count of numbers that fit in `width` bytes.
pub open spec fn byte_capacity(width: nat) -> nat
    decreases width,
{
    if width == 0 {
        1
    } else {
        256 * byte_capacity((width - 1) as nat)
    }
}

/// A number is read back from its big-endian bytes.
pub proof fn lemma_be_round_trip(value: nat, width: nat)
    requires
        value < byte_capacity(width),
    ensures
        be_bytes(value, width).len() == width,
        be_value(be_bytes(value, width)) == value,
    decreases width,
{
    if width > 0 {
        lemma_be_round_trip(value / 256, (width - 1) as nat);
        let bytes = be_bytes(value, width);
        assert(bytes.drop_last() =~= be_bytes(value / 256, (width - 1) as nat));
        assert(bytes.last() == (value % 256) as u8);
    }
}

/// Big-endian bytes are the bytes of the number they stand for.
pub proof fn lemma_be_canonical(bytes: Seq<u8>)
    ensures
        be_bytes(be_value(bytes), bytes.len()) == bytes,
        be_value(bytes) < byte_capacity(bytes.len()),
    decreases bytes.len(),
{
    if bytes.len() > 0 {
        lemma_be_canonical(bytes.drop_last());
        let value = be_value(bytes);
        assert(value / 256 == be_value(bytes.drop_last()));
        assert(value % 256 == bytes.last());
        assert(be_bytes(value, bytes.len()) =~= bytes);
    } else {
        assert(be_bytes(0, 0) =~= bytes);
    }
}

/// The number of bytes in a big-endian number is its width.
pub proof fn lemma_be_length(value: nat, width: nat)
    ensures
        be_bytes(value, width).len() == width,
    decreases width,
{
    if width > 0 {
        lemma_be_length(value / 256, (width - 1) as nat);
    }
}

/// How many numbers fit in the widths that the wire format uses.
pub proof fn lemma_capacities()
    ensures
        byte_capacity(1) == 0x100,
        byte_capacity(2) == 0x1_0000,
        byte_capacity(4) == 0x1_0000_0000,
        byte_capacity(8) == 0x1_0000_0000_0000_0000,
{
    reveal_with_fuel(byte_capacity, 9);
}

/// Appends `value` to `bytes`, most significant byte first.
pub fn push_be(bytes: &mut Vec<u8>, value: u64, width: usize)
    requires
        width <= 8,
    ensures
        final(bytes)@ == old(bytes)@ + be_bytes(value as nat, width as nat),
    decreases width,
{
    if width > 0 {
        push_be(bytes, value / 256, width - 1);
        bytes.push((value % 256) as u8);
        assert(bytes@ =~= old(bytes)@ + be_bytes(value as nat, width as nat));
    } else {
        assert(bytes@ =~= old(bytes)@ + be_bytes(value as nat, 0));
    }
}

/// The number that at most eight big-endian bytes stand for.
pub fn read_be(bytes: &[u8]) -> (value: u64)
    requires
        bytes.len() <= 8,
    ensures
        value == be_value(bytes@),
{
    let mut value: u64 = 0;
    let mut index: usize = 0;
    while index < bytes.len()
        invariant
            index <= bytes.len() <= 8,
            value == be_value(bytes@.take(index as int)),
            value < byte_capacity(index as nat),
        decreases bytes.len() - index,
    {
        proof {
            reveal_with_fuel(byte_capacity, 9);
            assert(bytes@.take(index + 1).drop_last() =~= bytes@.take(index as int));
            assert(byte_capacity((index + 1) as nat) == 256 * byte_capacity(index as nat));
        }
        value = value * 256 + bytes[index] as u64;
        index = index + 1;
    }
    assert(bytes@.take(bytes@.len() as int) =~= bytes@);
    value
}

/// `String::from_utf8`: succeeds exactly on well-formed UTF-8, and gives the
/// characters that the bytes encode.
#[verifier::external_body]
fn string_from_utf8(bytes: Vec<u8>) -> (text: Option<String>)
    ensures
        text is Some <==> valid_utf8(bytes@),
        text matches Some(string) ==> string@ == decode_utf8(bytes@),
{
    String::from_utf8(bytes).ok()
}

/// The text that `bytes` encode in UTF-8, if they do.
pub fn utf8_text(bytes: Vec<u8>) -> (text: Option<String>)
    ensures
        text is Some <==> valid_utf8(bytes@),
        text matches Some(string) ==> string@ == decode_utf8(bytes@) && encode_utf8(string@) == bytes@,
{
    proof {
        if valid_utf8(bytes@) {
            vstd::utf8::decode_utf8_encode_utf8(bytes@);
        }
    }
    string_from_utf8(bytes)
}

/// Byte strings have as many bytes together as they have one by one.
pub proof fn lengths_add_up(lists: Seq<Seq<u8>>, more: Seq<u8>)
    ensures
        total_length(Seq::empty()) == 0,
        total_length(lists.push(more)) == total_length(lists) + more.len(),
{
    assert(lists.push(more).drop_last() =~= lists);
}

/// Lists of bytes are seen whole and in their order, each as it is.
pub proof fn lists_are_seen_whole(lists: Seq<Vec<u8>>)
    ensures
        byte_lists(lists).len() == lists.len(),
        forall|i: int| 0 <= i < lists.len() ==> #[trigger] byte_lists(lists)[i] == lists[i]@,
{
}

} // verus!
