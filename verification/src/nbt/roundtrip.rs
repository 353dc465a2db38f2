//! A tree that is written is read back unchanged.

use vstd::prelude::*;
use vstd::utf8::{encode_utf8, encode_utf8_decode_utf8, encode_utf8_valid_utf8};
use crate::data::DataError;
use crate::data::endian::{be_bytes, lemma_be_bytes_len};
use crate::data::roundtrip::{lemma_signed_roundtrip, lemma_unsigned_roundtrip};
use super::{distinct_names, list_type, tag_id, NamedTag, TagModel};
use super::reader::{
    array_tag_decoding, byte_array_decoding, entries_decoding, first_named, int_array_decoding,
    items_decoding, list_count, long_array_decoding, merged, nbt_decoding, scalar_tag_decoding,
    text_decoding, upserted, value_decoding,
};
use super::tags::{TAG_COMPOUND, TAG_DOUBLE, TAG_END, TAG_LIST};
use super::writer::{
    bytes_encoding, entries_encoding, entry_encoding, ints_encoding, items_encoding,
    longs_encoding, nbt_encoding, payload_encoding, text_encoding,
};

verus! {

/// A text is read back as it was written, where two bytes can count its bytes.
pub proof fn lemma_text_roundtrip(text: Seq<char>, rest: Seq<u8>)
    requires
        encode_utf8(text).len() < 0x1_0000,
    ensures
        text_decoding(text_encoding(text) + rest) == Ok::<(Seq<char>, nat), DataError>(
            (text, text_encoding(text).len()),
        ),
        text_encoding(text).len() == 2 + encode_utf8(text).len(),
{
    let body = encode_utf8(text);
    let count = body.len() as u16;
    lemma_unsigned_roundtrip(0, count, 0, 0, 0, body + rest);
    lemma_be_bytes_len(count as nat, 2);
    encode_utf8_valid_utf8(text);
    encode_utf8_decode_utf8(text);
    let s = text_encoding(text) + rest;
    assert(s =~= be_bytes(count as nat, 2) + (body + rest));
    assert(s.subrange(2, 2 + count) =~= body);
}

/// Signed bytes are read back as they were written, where two bytes can
/// count them.
pub proof fn lemma_byte_array_roundtrip(values: Seq<i8>, rest: Seq<u8>)
    requires
        values.len() < 0x1_0000,
    ensures
        byte_array_decoding(
            be_bytes((values.len() as u16) as nat, 2) + bytes_encoding(values) + rest,
        ) == Ok::<(Seq<i8>, nat), DataError>((values, 2 + values.len())),
        (be_bytes((values.len() as u16) as nat, 2) + bytes_encoding(values)).len() == 2
            + values.len(),
{
    let count = values.len() as u16;
    let body = bytes_encoding(values);
    lemma_unsigned_roundtrip(0, count, 0, 0, 0, body + rest);
    lemma_be_bytes_len(count as nat, 2);
    let s = be_bytes(count as nat, 2) + body + rest;
    assert(s =~= be_bytes(count as nat, 2) + (body + rest));
    assert forall|i: int| 0 <= i < values.len() implies (#[trigger] s[2 + i]) as i8
        == values[i] by {
        let v = values[i];
        assert(s[2 + i] == v as u8);
        assert(((v as u8) as i8) == v) by (bit_vector);
    }
    assert(byte_array_decoding(s)->Ok_0.0 =~= values);
}

/// Where the `i`-th number of a run stands in its encoding.
pub proof fn lemma_ints_encoding_at(values: Seq<i32>, i: int)
    requires
        0 <= i < values.len(),
    ensures
        ints_encoding(values).len() == 4 * values.len(),
        ints_encoding(values).subrange(4 * i, 4 * i + 4) == be_bytes((values[i] as u32) as nat, 4),
    decreases values.len(),
{
    let head = values.drop_last();
    let last = be_bytes((values.last() as u32) as nat, 4);
    lemma_be_bytes_len((values.last() as u32) as nat, 4);
    lemma_ints_encoding_len(head);
    if i < head.len() {
        lemma_ints_encoding_at(head, i);
        assert(ints_encoding(values).subrange(4 * i, 4 * i + 4) =~= ints_encoding(head).subrange(
            4 * i,
            4 * i + 4,
        ));
    } else {
        assert(ints_encoding(values).subrange(4 * i, 4 * i + 4) =~= last);
    }
}

/// A run of signed 32-bit numbers takes four bytes for each.
pub proof fn lemma_ints_encoding_len(values: Seq<i32>)
    ensures
        ints_encoding(values).len() == 4 * values.len(),
    decreases values.len(),
{
    if values.len() > 0 {
        lemma_ints_encoding_len(values.drop_last());
        lemma_be_bytes_len((values.last() as u32) as nat, 4);
    }
}

/// Where the `i`-th number of a run stands in its encoding.
pub proof fn lemma_longs_encoding_at(values: Seq<i64>, i: int)
    requires
        0 <= i < values.len(),
    ensures
        longs_encoding(values).len() == 8 * values.len(),
        longs_encoding(values).subrange(8 * i, 8 * i + 8) == be_bytes(
            (values[i] as u64) as nat,
            8,
        ),
    decreases values.len(),
{
    let head = values.drop_last();
    let last = be_bytes((values.last() as u64) as nat, 8);
    lemma_be_bytes_len((values.last() as u64) as nat, 8);
    lemma_longs_encoding_len(head);
    if i < head.len() {
        lemma_longs_encoding_at(head, i);
        assert(longs_encoding(values).subrange(8 * i, 8 * i + 8) =~= longs_encoding(
            head,
        ).subrange(8 * i, 8 * i + 8));
    } else {
        assert(longs_encoding(values).subrange(8 * i, 8 * i + 8) =~= last);
    }
}

/// A run of signed 64-bit numbers takes eight bytes for each.
pub proof fn lemma_longs_encoding_len(values: Seq<i64>)
    ensures
        longs_encoding(values).len() == 8 * values.len(),
    decreases values.len(),
{
    if values.len() > 0 {
        lemma_longs_encoding_len(values.drop_last());
        lemma_be_bytes_len((values.last() as u64) as nat, 8);
    }
}

/// Signed 32-bit numbers are read back as they were written, where four
/// bytes can count them.
pub proof fn lemma_int_array_roundtrip(values: Seq<i32>, rest: Seq<u8>)
    requires
        values.len() < 0x1_0000_0000,
    ensures
        int_array_decoding(
            be_bytes((values.len() as u32) as nat, 4) + ints_encoding(values) + rest,
        ) == Ok::<(Seq<i32>, nat), DataError>((values, 4 + 4 * values.len())),
        (be_bytes((values.len() as u32) as nat, 4) + ints_encoding(values)).len() == 4 + 4
            * values.len(),
{
    let count = values.len() as u32;
    let body = ints_encoding(values);
    lemma_unsigned_roundtrip(0, 0, count, 0, 0, body + rest);
    lemma_be_bytes_len(count as nat, 4);
    lemma_ints_encoding_len(values);
    let s = be_bytes(count as nat, 4) + body + rest;
    assert(s =~= be_bytes(count as nat, 4) + (body + rest));
    let read = int_array_decoding(s)->Ok_0.0;
    assert forall|i: int| 0 <= i < values.len() implies read[i] == values[i] by {
        let v = values[i];
        lemma_ints_encoding_at(values, i);
        assert(s.subrange(4 + 4 * i, 8 + 4 * i) =~= body.subrange(4 * i, 4 * i + 4));
        lemma_unsigned_roundtrip(0, 0, v as u32, 0, 0, Seq::empty());
        assert(be_bytes((v as u32) as nat, 4) + Seq::<u8>::empty() =~= be_bytes(
            (v as u32) as nat,
            4,
        ));
        assert(be_bytes((v as u32) as nat, 4).take(4) =~= be_bytes((v as u32) as nat, 4));
        assert(((v as u32) as i32) == v) by (bit_vector);
    }
    assert(read =~= values);
}

/// Signed 64-bit numbers are read back as they were written, where four
/// bytes can count them.
pub proof fn lemma_long_array_roundtrip(values: Seq<i64>, rest: Seq<u8>)
    requires
        values.len() < 0x1_0000_0000,
    ensures
        long_array_decoding(
            be_bytes((values.len() as u32) as nat, 4) + longs_encoding(values) + rest,
        ) == Ok::<(Seq<i64>, nat), DataError>((values, 4 + 8 * values.len())),
        (be_bytes((values.len() as u32) as nat, 4) + longs_encoding(values)).len() == 4 + 8
            * values.len(),
{
    let count = values.len() as u32;
    let body = longs_encoding(values);
    lemma_unsigned_roundtrip(0, 0, count, 0, 0, body + rest);
    lemma_be_bytes_len(count as nat, 4);
    lemma_longs_encoding_len(values);
    let s = be_bytes(count as nat, 4) + body + rest;
    assert(s =~= be_bytes(count as nat, 4) + (body + rest));
    let read = long_array_decoding(s)->Ok_0.0;
    assert forall|i: int| 0 <= i < values.len() implies read[i] == values[i] by {
        let v = values[i];
        lemma_longs_encoding_at(values, i);
        assert(s.subrange(4 + 8 * i, 12 + 8 * i) =~= body.subrange(8 * i, 8 * i + 8));
        lemma_unsigned_roundtrip(0, 0, 0, v as u64, 0, Seq::empty());
        assert(be_bytes((v as u64) as nat, 8) + Seq::<u8>::empty() =~= be_bytes(
            (v as u64) as nat,
            8,
        ));
        assert(be_bytes((v as u64) as nat, 8).take(8) =~= be_bytes((v as u64) as nat, 8));
        assert(((v as u64) as i64) == v) by (bit_vector);
    }
    assert(read =~= values);
}

/// A value that holds one number is read back as it was written.
pub proof fn lemma_scalar_tag_roundtrip(t: TagModel, rest: Seq<u8>)
    requires
        tag_id(t) <= TAG_DOUBLE,
    ensures
        scalar_tag_decoding(payload_encoding(t) + rest, tag_id(t)) == Ok::<
            (TagModel, nat),
            DataError,
        >((t, payload_encoding(t).len())),
        payload_encoding(t).len() >= 1,
{
    match t {
        TagModel::End => {
            assert((seq![TAG_END] + rest).len() >= 1);
        },
        TagModel::Byte(v) => {
            lemma_signed_roundtrip(v, 0, 0, 0, rest);
            lemma_be_bytes_len((v as u8) as nat, 1);
        },
        TagModel::Short(v) => {
            lemma_signed_roundtrip(0, v, 0, 0, rest);
            lemma_be_bytes_len((v as u16) as nat, 2);
        },
        TagModel::Int(v) => {
            lemma_signed_roundtrip(0, 0, v, 0, rest);
            lemma_be_bytes_len((v as u32) as nat, 4);
        },
        TagModel::Long(v) => {
            lemma_signed_roundtrip(0, 0, 0, v, rest);
            lemma_be_bytes_len((v as u64) as nat, 8);
        },
        TagModel::Float(v) => {
            lemma_unsigned_roundtrip(0, 0, v, 0, 0, rest);
            lemma_be_bytes_len(v as nat, 4);
        },
        TagModel::Double(v) => {
            lemma_unsigned_roundtrip(0, 0, 0, v, 0, rest);
            lemma_be_bytes_len(v as nat, 8);
        },
        _ => {},
    }
}

/// A value that holds text or a run of numbers is read back as it was
/// written.
pub proof fn lemma_array_tag_roundtrip(t: TagModel, rest: Seq<u8>)
    requires
        t is ByteArray || t is String || t is IntArray || t is LongArray,
        t.representable(),
    ensures
        array_tag_decoding(payload_encoding(t) + rest, tag_id(t)) == Ok::<
            (TagModel, nat),
            DataError,
        >((t, payload_encoding(t).len())),
        payload_encoding(t).len() >= 1,
{
    match t {
        TagModel::ByteArray(values) => {
            lemma_byte_array_roundtrip(values, rest);
        },
        TagModel::String(text) => {
            lemma_text_roundtrip(text, rest);
        },
        TagModel::IntArray(values) => {
            lemma_int_array_roundtrip(values, rest);
        },
        TagModel::LongArray(values) => {
            lemma_long_array_roundtrip(values, rest);
        },
        _ => {},
    }
}

/// The values of a run of items stand first item first.
pub proof fn lemma_items_encoding_front(items: Seq<TagModel>)
    requires
        items.len() > 0,
    ensures
        items_encoding(items) == payload_encoding(items[0]) + items_encoding(items.skip(1)),
    decreases items.len(),
{
    let head = items.drop_last();
    if head.len() == 0 {
        assert(items.skip(1) =~= Seq::<TagModel>::empty());
        assert(items_encoding(head) =~= Seq::<u8>::empty());
        assert(items_encoding(items.skip(1)) =~= Seq::<u8>::empty());
        assert(items.last() == items[0]);
        assert(items_encoding(items) =~= payload_encoding(items[0]) + items_encoding(
            items.skip(1),
        ));
    } else {
        lemma_items_encoding_front(head);
        assert(items.skip(1).drop_last() =~= head.skip(1));
        assert(items_encoding(items) =~= payload_encoding(items[0]) + items_encoding(
            items.skip(1),
        ));
    }
}

/// The entries of a compound stand first entry first.
pub proof fn lemma_entries_encoding_front(entries: Seq<NamedTag>)
    requires
        entries.len() > 0,
    ensures
        entries_encoding(entries) == entry_encoding(entries[0].name, entries[0].tag)
            + entries_encoding(entries.skip(1)),
    decreases entries.len(),
{
    let head = entries.drop_last();
    if head.len() == 0 {
        assert(entries.skip(1) =~= Seq::<NamedTag>::empty());
        assert(entries_encoding(head) =~= Seq::<u8>::empty());
        assert(entries_encoding(entries.skip(1)) =~= Seq::<u8>::empty());
        assert(entries.last() == entries[0]);
        assert(entries_encoding(entries) =~= entry_encoding(entries[0].name, entries[0].tag)
            + entries_encoding(entries.skip(1)));
    } else {
        lemma_entries_encoding_front(head);
        assert(entries.skip(1).drop_last() =~= head.skip(1));
        assert(entries_encoding(entries) =~= entry_encoding(entries[0].name, entries[0].tag)
            + entries_encoding(entries.skip(1)));
    }
}

/// Entries whose names differ are a mapping as they stand.
pub proof fn lemma_merged_distinct(entries: Seq<NamedTag>)
    requires
        distinct_names(entries),
    ensures
        merged(entries) == entries,
    decreases entries.len(),
{
    if entries.len() == 0 {
        assert(merged(entries) =~= entries);
    } else {
        let head = entries.drop_last();
        let last = entries.last();
        assert forall|i: int, j: int| 0 <= i < j < head.len() implies (#[trigger] head[i]).name
            != (#[trigger] head[j]).name by {
            assert(head[i] == entries[i] && head[j] == entries[j]);
        }
        lemma_merged_distinct(head);
        assert forall|index: int| !first_named(head, last.name, index) by {
            if 0 <= index < head.len() {
                assert(head[index] == entries[index]);
                assert(entries[index].name != entries[entries.len() - 1].name);
            }
        }
        assert(upserted(head, last) =~= entries);
    }
}

/// Every item is written and read back unchanged and has the type `ty`.
pub open spec fn items_sound(items: Seq<TagModel>, ty: u8) -> bool {
    forall|i: int|
        0 <= i < items.len() ==> (#[trigger] items[i]).sound() && tag_id(items[i]) == ty
}

/// Every entry has a name that two bytes can count and a value that is
/// written and read back unchanged and is no end tag.
pub open spec fn entries_sound(entries: Seq<NamedTag>) -> bool {
    forall|i: int|
        0 <= i < entries.len() ==> {
            &&& encode_utf8((#[trigger] entries[i]).name).len() < 0x1_0000
            &&& !(entries[i].tag is End)
            &&& entries[i].tag.sound()
        }
}

/// A value is read back as it was written, whatever bytes follow: this holds
/// of every tree in which the items of each list share one type, no compound
/// has a name twice or an end tag as a value, and every count fits the bytes
/// that hold it.
pub proof fn lemma_value_roundtrip(t: TagModel, rest: Seq<u8>)
    requires
        t.sound(),
    ensures
        value_decoding(payload_encoding(t) + rest, tag_id(t)) == Ok::<(TagModel, nat), DataError>(
            (t, payload_encoding(t).len()),
        ),
        payload_encoding(t).len() >= 1,
    decreases t, 0nat,
{
    match t {
        TagModel::List(items) => {
            lemma_list_roundtrip(items, rest);
        },
        TagModel::Compound(entries) => {
            assert(entries_sound(entries));
            lemma_entries_roundtrip(entries, rest);
            lemma_merged_distinct(entries);
            assert(payload_encoding(t) + rest =~= entries_encoding(entries) + seq![TAG_END]
                + rest);
        },
        TagModel::ByteArray(_) | TagModel::String(_) | TagModel::IntArray(_) | TagModel::LongArray(
            _,
        ) => {
            lemma_array_tag_roundtrip(t, rest);
        },
        _ => {
            lemma_scalar_tag_roundtrip(t, rest);
        },
    }
}

/// A list is read back as it was written.
pub proof fn lemma_list_roundtrip(items: Seq<TagModel>, rest: Seq<u8>)
    requires
        TagModel::List(items).sound(),
    ensures
        value_decoding(payload_encoding(TagModel::List(items)) + rest, TAG_LIST) == Ok::<
            (TagModel, nat),
            DataError,
        >((TagModel::List(items), payload_encoding(TagModel::List(items)).len())),
        payload_encoding(TagModel::List(items)).len() >= 1,
    decreases items, 2nat,
{
    let count = items.len() as u32;
    let head = seq![list_type(items)] + be_bytes(count as nat, 4);
    let body = items_encoding(items);
    let s = payload_encoding(TagModel::List(items)) + rest;
    lemma_be_bytes_len(count as nat, 4);
    lemma_unsigned_roundtrip(0, 0, count, 0, 0, body + rest);
    assert(s =~= head + body + rest);
    assert(s.subrange(1, 5) =~= be_bytes(count as nat, 4));
    assert((be_bytes(count as nat, 4) + (body + rest)).take(4) =~= be_bytes(count as nat, 4));
    assert(s.subrange(1, 5).take(4) =~= s.subrange(1, 5));
    assert((count as i32) == items.len()) by {
        assert(count <= 0x7fff_ffff ==> (count as i32) == count) by (bit_vector);
    }
    assert(list_count(s) == items.len());
    if items.len() == 0 {
        assert(items =~= Seq::<TagModel>::empty());
    } else {
        assert(s[0] == tag_id(items[0]));
        assert(items_sound(items, tag_id(items[0])));
        lemma_items_roundtrip(items, tag_id(items[0]), rest);
        assert(s.skip(5) =~= body + rest);
    }
}

/// The items of a list are read back as they were written.
pub proof fn lemma_items_roundtrip(items: Seq<TagModel>, ty: u8, rest: Seq<u8>)
    requires
        items_sound(items, ty),
    ensures
        items_decoding(items_encoding(items) + rest, ty, items.len()) == Ok::<
            (Seq<TagModel>, nat),
            DataError,
        >((items, items_encoding(items).len())),
    decreases items, 1nat,
{
    if items.len() == 0 {
        assert(items =~= Seq::<TagModel>::empty());
        assert(items_encoding(items) =~= Seq::<u8>::empty());
    } else {
        let first = items[0];
        let tail = items.skip(1);
        let s = items_encoding(items) + rest;
        lemma_items_encoding_front(items);
        assert(s =~= payload_encoding(first) + (items_encoding(tail) + rest));
        lemma_value_roundtrip(first, items_encoding(tail) + rest);
        let n = payload_encoding(first).len();
        assert(s.skip(n as int) =~= items_encoding(tail) + rest);
        assert forall|i: int| 0 <= i < tail.len() implies (#[trigger] tail[i]).sound() && tag_id(
            tail[i],
        ) == ty by {
            assert(tail[i] == items[i + 1]);
        }
        lemma_items_roundtrip(tail, ty, rest);
        assert(seq![first] + tail =~= items);
    }
}

/// How the entries at the start of `s` follow from the first of them and
/// the rest.
proof fn lemma_entries_step(s: Seq<u8>, first: NamedTag, m: nat, n: nat, tail: Seq<NamedTag>, k: nat)
    requires
        s.len() > 0,
        s[0] != TAG_END,
        text_decoding(s.skip(1)) == Ok::<(Seq<char>, nat), DataError>((first.name, m)),
        value_decoding(s.skip((1 + m) as int), s[0]) == Ok::<(TagModel, nat), DataError>(
            (first.tag, n),
        ),
        1 + m + n <= s.len(),
        entries_decoding(s.skip((1 + m + n) as int)) == Ok::<(Seq<NamedTag>, nat), DataError>(
            (tail, k),
        ),
    ensures
        entries_decoding(s) == Ok::<(Seq<NamedTag>, nat), DataError>(
            (seq![first] + tail, 1 + m + n + k),
        ),
{
}

/// The entries of a compound, with the tag that ends them, are read back as
/// they were written.
pub proof fn lemma_entries_roundtrip(entries: Seq<NamedTag>, rest: Seq<u8>)
    requires
        entries_sound(entries),
    ensures
        entries_decoding(entries_encoding(entries) + seq![TAG_END] + rest) == Ok::<
            (Seq<NamedTag>, nat),
            DataError,
        >((entries, entries_encoding(entries).len() + 1)),
    decreases entries, 1nat,
{
    let s = entries_encoding(entries) + seq![TAG_END] + rest;
    if entries.len() == 0 {
        assert(entries =~= Seq::<NamedTag>::empty());
        assert(entries_encoding(entries) =~= Seq::<u8>::empty());
        assert(s[0] == TAG_END);
    } else {
        let first = entries[0];
        let tail = entries.skip(1);
        let after = entries_encoding(tail) + seq![TAG_END] + rest;
        lemma_entries_encoding_front(entries);
        let name = text_encoding(first.name);
        let value = payload_encoding(first.tag);
        assert(s =~= seq![tag_id(first.tag)] + (name + (value + after)));
        assert(s[0] == tag_id(first.tag));
        assert(s[0] != TAG_END);
        assert(s.skip(1) =~= name + (value + after));
        lemma_text_roundtrip(first.name, value + after);
        let m = name.len();
        assert(s.skip((1 + m) as int) =~= value + after);
        lemma_value_roundtrip(first.tag, after);
        let n = value.len();
        assert(s.skip((1 + m + n) as int) =~= after);
        assert forall|i: int| 0 <= i < tail.len() implies {
            &&& encode_utf8((#[trigger] tail[i]).name).len() < 0x1_0000
            &&& !(tail[i].tag is End)
            &&& tail[i].tag.sound()
        } by {
            assert(tail[i] == entries[i + 1]);
        }
        lemma_entries_roundtrip(tail, rest);
        assert(s.len() == 1 + m + n + after.len());
        lemma_entries_step(s, first, m, n, tail, entries_encoding(tail).len() + 1);
        assert(seq![first] + tail =~= entries);
        assert(entries_encoding(entries).len() == 1 + m + n + entries_encoding(tail).len());
    }
}

/// A whole tree is read back as it was written, whatever bytes follow, in
/// file mode and without: this holds of every compound in which the items of
/// each list share one type, no compound has a name twice or an end tag as a
/// value, and every count fits the bytes that hold it.
pub proof fn lemma_nbt_roundtrip(t: TagModel, to_file: bool, rest: Seq<u8>)
    requires
        t is Compound,
        t.sound(),
    ensures
        nbt_encoding(t, to_file) matches Ok(bytes) && nbt_decoding(bytes + rest, to_file) == Ok::<
            (TagModel, nat),
            DataError,
        >((t, bytes.len())),
{
    let bytes = nbt_encoding(t, to_file)->Ok_0;
    let s = bytes + rest;
    let body = payload_encoding(t);
    lemma_value_roundtrip(t, rest);
    if to_file {
        lemma_text_roundtrip(Seq::empty(), body + rest);
        assert(encode_utf8(Seq::<char>::empty()) =~= Seq::<u8>::empty());
        assert(text_encoding(Seq::empty()) =~= seq![0u8, 0u8]) by {
            reveal_with_fuel(be_bytes, 3);
        }
        assert(s.skip(1) =~= text_encoding(Seq::empty()) + (body + rest));
        assert(s.skip(3) =~= body + rest);
    } else {
        assert(s.skip(1) =~= body + rest);
    }
}

/// A tree whose root is no compound, or in which some list holds items of
/// more than one type, is not written.
pub proof fn lemma_nbt_refused(t: TagModel, to_file: bool)
    requires
        !(t is Compound) || !t.encodable(),
    ensures
        nbt_encoding(t, to_file) == Err::<Seq<u8>, DataError>(DataError::NBTError),
{
}

/// Bytes whose first is not the type tag of a compound are not read as a
/// tree.
pub proof fn lemma_root_must_be_compound(s: Seq<u8>, named: bool)
    requires
        s.len() > 0,
        s[0] != TAG_COMPOUND,
    ensures
        nbt_decoding(s, named) == Err::<(TagModel, nat), DataError>(DataError::NBTError),
{
}

} // verus!
