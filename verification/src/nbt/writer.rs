//! Writing a tree of tags.

use vstd::prelude::*;
use vstd::utf8::encode_utf8;
use crate::data::DataError;
use crate::data::buffer::{push_all, Buffer};
use crate::data::endian::{be_bytes, push_be};
use crate::data::writer::{appended, Writer};
use super::{entries_view, list_type, list_view, tag_id, uniform, NamedTag, Tag, TagModel};
use super::tags::{
    TAG_BYTE, TAG_BYTE_ARRAY, TAG_COMPOUND, TAG_DOUBLE, TAG_END, TAG_FLOAT, TAG_INT, TAG_INT_ARRAY,
    TAG_LIST, TAG_LONG, TAG_LONG_ARRAY, TAG_SHORT, TAG_STRING,
};

verus! {

/// Text behind the count of its UTF-8 bytes in two bytes. The count is taken
/// modulo 65536.
pub open spec fn text_encoding(text: Seq<char>) -> Seq<u8> {
    be_bytes((encode_utf8(text).len() as u16) as nat, 2) + encode_utf8(text)
}

/// Signed bytes as they stand on the wire.
pub open spec fn bytes_encoding(values: Seq<i8>) -> Seq<u8> {
    Seq::new(values.len(), |i: int| values[i] as u8)
}

/// Signed 32-bit numbers one after the other, four bytes each.
pub open spec fn ints_encoding(values: Seq<i32>) -> Seq<u8>
    decreases values.len(),
{
    if values.len() == 0 {
        Seq::empty()
    } else {
        ints_encoding(values.drop_last()) + be_bytes((values.last() as u32) as nat, 4)
    }
}

/// Signed 64-bit numbers one after the other, eight bytes each.
pub open spec fn longs_encoding(values: Seq<i64>) -> Seq<u8>
    decreases values.len(),
{
    if values.len() == 0 {
        Seq::empty()
    } else {
        longs_encoding(values.drop_last()) + be_bytes((values.last() as u64) as nat, 8)
    }
}

/// A node's value as written, without its type tag and name.
pub open spec fn payload_encoding(t: TagModel) -> Seq<u8>
    decreases t, 0nat,
{
    match t {
        TagModel::End => seq![TAG_END],
        TagModel::Byte(v) => be_bytes((v as u8) as nat, 1),
        TagModel::Short(v) => be_bytes((v as u16) as nat, 2),
        TagModel::Int(v) => be_bytes((v as u32) as nat, 4),
        TagModel::Long(v) => be_bytes((v as u64) as nat, 8),
        TagModel::Float(bits) => be_bytes(bits as nat, 4),
        TagModel::Double(bits) => be_bytes(bits as nat, 8),
        TagModel::ByteArray(values) => be_bytes((values.len() as u16) as nat, 2) + bytes_encoding(
            values,
        ),
        TagModel::String(text) => text_encoding(text),
        TagModel::List(items) => seq![list_type(items)] + be_bytes(
            (items.len() as u32) as nat,
            4,
        ) + items_encoding(items),
        TagModel::Compound(entries) => entries_encoding(entries) + seq![TAG_END],
        TagModel::IntArray(values) => be_bytes((values.len() as u32) as nat, 4) + ints_encoding(
            values,
        ),
        TagModel::LongArray(values) => be_bytes((values.len() as u32) as nat, 4)
            + longs_encoding(values),
    }
}

/// The values of a list's items one after the other.
pub open spec fn items_encoding(items: Seq<TagModel>) -> Seq<u8>
    decreases items, 0nat,
{
    if items.len() == 0 {
        Seq::empty()
    } else {
        items_encoding(items.drop_last()) + payload_encoding(items.last())
    }
}

/// One entry of a compound: the value's type tag, the name, the value.
pub open spec fn entry_encoding(name: Seq<char>, t: TagModel) -> Seq<u8>
    decreases t, 1nat,
{
    seq![tag_id(t)] + text_encoding(name) + payload_encoding(t)
}

/// The entries of a compound one after the other.
pub open spec fn entries_encoding(entries: Seq<NamedTag>) -> Seq<u8>
    decreases entries, 0nat,
{
    if entries.len() == 0 {
        Seq::empty()
    } else {
        entries_encoding(entries.drop_last()) + entry_encoding(
            entries.last().name,
            entries.last().tag,
        )
    }
}

/// A whole tree as written: the root's type tag, in file mode an empty name,
/// then the root's entries. `NBTError` where the root is no compound or some
/// list in the tree holds items of more than one type.
pub open spec fn nbt_encoding(t: TagModel, to_file: bool) -> Result<Seq<u8>, DataError> {
    if t is Compound && t.encodable() {
        Ok(
            seq![TAG_COMPOUND] + (if to_file {
                seq![0u8, 0u8]
            } else {
                Seq::empty()
            }) + payload_encoding(t),
        )
    } else {
        Err(DataError::NBTError)
    }
}

/// The type tag of `tag`.
pub fn get_id(tag: &Tag) -> (id: u8)
    ensures
        id == tag_id(tag@),
{
    match tag {
        Tag::End => TAG_END,
        Tag::Byte(_) => TAG_BYTE,
        Tag::Short(_) => TAG_SHORT,
        Tag::Int(_) => TAG_INT,
        Tag::Long(_) => TAG_LONG,
        Tag::Float(_) => TAG_FLOAT,
        Tag::Double(_) => TAG_DOUBLE,
        Tag::ByteArray(_) => TAG_BYTE_ARRAY,
        Tag::String(_) => TAG_STRING,
        Tag::List(_) => TAG_LIST,
        Tag::Compound(_) => TAG_COMPOUND,
        Tag::IntArray(_) => TAG_INT_ARRAY,
        Tag::LongArray(_) => TAG_LONG_ARRAY,
    }
}

/// Appends `text` behind the count of its bytes.
fn put_text(text: &str, out: &mut Vec<u8>)
    ensures
        final(out)@ == old(out)@ + text_encoding(text@),
{
    let bytes = text.as_bytes();
    let count: u16 = #[verifier::truncate] (bytes.len() as u16);
    push_be(out, count as u128, 2);
    push_all(out, bytes);
    assert(out@ =~= old(out)@ + text_encoding(text@));
}

/// Appends the signed bytes of `values`.
fn put_bytes(values: &Vec<i8>, out: &mut Vec<u8>)
    ensures
        final(out)@ == old(out)@ + bytes_encoding(values@),
{
    let mut i: usize = 0;
    while i < values.len()
        invariant
            i <= values@.len(),
            out@ == old(out)@ + bytes_encoding(values@).take(i as int),
        decreases values@.len() - i,
    {
        out.push(#[verifier::truncate] (values[i] as u8));
        i = i + 1;
        assert(out@ =~= old(out)@ + bytes_encoding(values@).take(i as int));
    }
    assert(bytes_encoding(values@).take(i as int) =~= bytes_encoding(values@));
}

/// Appends the numbers of `values`, four bytes each.
fn put_ints(values: &Vec<i32>, out: &mut Vec<u8>)
    ensures
        final(out)@ == old(out)@ + ints_encoding(values@),
{
    let mut i: usize = 0;
    assert(out@ =~= old(out)@ + ints_encoding(values@.take(0)));
    while i < values.len()
        invariant
            i <= values@.len(),
            out@ == old(out)@ + ints_encoding(values@.take(i as int)),
        decreases values@.len() - i,
    {
        push_be(out, (#[verifier::truncate] (values[i] as u32)) as u128, 4);
        i = i + 1;
        assert(values@.take(i as int).drop_last() =~= values@.take(i - 1));
        assert(out@ =~= old(out)@ + ints_encoding(values@.take(i as int)));
    }
    assert(values@.take(i as int) =~= values@);
}

/// Appends the numbers of `values`, eight bytes each.
fn put_longs(values: &Vec<i64>, out: &mut Vec<u8>)
    ensures
        final(out)@ == old(out)@ + longs_encoding(values@),
{
    let mut i: usize = 0;
    assert(out@ =~= old(out)@ + longs_encoding(values@.take(0)));
    while i < values.len()
        invariant
            i <= values@.len(),
            out@ == old(out)@ + longs_encoding(values@.take(i as int)),
        decreases values@.len() - i,
    {
        push_be(out, (#[verifier::truncate] (values[i] as u64)) as u128, 8);
        i = i + 1;
        assert(values@.take(i as int).drop_last() =~= values@.take(i - 1));
        assert(out@ =~= old(out)@ + longs_encoding(values@.take(i as int)));
    }
    assert(values@.take(i as int) =~= values@);
}

/// Whether the tags of `list` all have the type of the first.
fn same_type(list: &Vec<Tag>) -> (ok: bool)
    ensures
        ok == uniform(list_view(list@)),
{
    if list.len() == 0 {
        return true;
    }
    let first: u8 = get_id(&list[0]);
    let mut i: usize = 1;
    while i < list.len()
        invariant
            1 <= i <= list@.len(),
            first == tag_id(list_view(list@)[0]),
            forall|j: int| 0 <= j < i ==> tag_id(#[trigger] list_view(list@)[j]) == first,
        decreases list@.len() - i,
    {
        if get_id(&list[i]) != first {
            assert(tag_id(list_view(list@)[i as int]) != tag_id(list_view(list@)[0]));
            return false;
        }
        i = i + 1;
    }
    true
}

/// Appends the value of `tag`, or reports that the tree cannot be written.
/// What `out` holds after a fault is of no use.
fn write_value(tag: &Tag, out: &mut Vec<u8>) -> (r: Result<(), DataError>)
    ensures
        match r {
            Ok(_) => tag@.encodable() && final(out)@ == old(out)@ + payload_encoding(tag@),
            Err(e) => e == DataError::NBTError && !tag@.encodable(),
        },
    decreases tag, 0nat,
{
    match tag {
        Tag::End => {
            out.push(TAG_END);
            assert(out@ =~= old(out)@ + payload_encoding(tag@));
        },
        Tag::Byte(value) => push_be(out, (#[verifier::truncate] (*value as u8)) as u128, 1),
        Tag::Short(value) => push_be(out, (#[verifier::truncate] (*value as u16)) as u128, 2),
        Tag::Int(value) => push_be(out, (#[verifier::truncate] (*value as u32)) as u128, 4),
        Tag::Long(value) => push_be(out, (#[verifier::truncate] (*value as u64)) as u128, 8),
        Tag::Float(bits) => push_be(out, *bits as u128, 4),
        Tag::Double(bits) => push_be(out, *bits as u128, 8),
        Tag::ByteArray(values) => {
            let count: u16 = #[verifier::truncate] (values.len() as u16);
            push_be(out, count as u128, 2);
            put_bytes(values, out);
            assert(out@ =~= old(out)@ + payload_encoding(tag@));
        },
        Tag::String(text) => put_text(text.as_str(), out),
        Tag::List(list) => {
            return write_list(list, out);
        },
        Tag::Compound(entries) => {
            return write_compound(entries, out);
        },
        Tag::IntArray(values) => {
            let count: u32 = #[verifier::truncate] (values.len() as u32);
            push_be(out, count as u128, 4);
            put_ints(values, out);
            assert(out@ =~= old(out)@ + payload_encoding(tag@));
        },
        Tag::LongArray(values) => {
            let count: u32 = #[verifier::truncate] (values.len() as u32);
            push_be(out, count as u128, 4);
            put_longs(values, out);
            assert(out@ =~= old(out)@ + payload_encoding(tag@));
        },
    }
    Ok(())
}

/// Appends a list: the type of its items, their count, their values.
fn write_list(list: &Vec<Tag>, out: &mut Vec<u8>) -> (r: Result<(), DataError>)
    ensures
        match r {
            Ok(_) => TagModel::List(list_view(list@)).encodable() && final(out)@ == old(out)@
                + payload_encoding(TagModel::List(list_view(list@))),
            Err(e) => e == DataError::NBTError && !TagModel::List(list_view(list@)).encodable(),
        },
    decreases list, 1nat,
{
    let ghost items = list_view(list@);
    if !same_type(list) {
        return Err(DataError::NBTError);
    }
    let type_of_list: u8 = if list.len() == 0 {
        TAG_END
    } else {
        get_id(&list[0])
    };
    out.push(type_of_list);
    let count: u32 = #[verifier::truncate] (list.len() as u32);
    push_be(out, count as u128, 4);
    let ghost head = out@;
    assert(head =~= old(out)@ + seq![list_type(items)] + be_bytes(
        (items.len() as u32) as nat,
        4,
    ));
    let mut i: usize = 0;
    assert(items.take(0) =~= Seq::<TagModel>::empty());
    while i < list.len()
        invariant
            i <= list@.len(),
            items == list_view(list@),
            out@ == head + items_encoding(items.take(i as int)),
            forall|j: int| 0 <= j < i ==> (#[trigger] items[j]).encodable(),
        decreases list@.len() - i,
    {
        match write_value(&list[i], out) {
            Ok(()) => {},
            Err(e) => {
                assert(!items[i as int].encodable());
                return Err(e);
            },
        }
        i = i + 1;
        assert(items.take(i as int).drop_last() =~= items.take(i - 1));
        assert(items.take(i as int).last() == items[i - 1]);
        assert(out@ =~= head + items_encoding(items.take(i as int)));
    }
    assert(items.take(i as int) =~= items);
    assert(out@ =~= old(out)@ + payload_encoding(TagModel::List(items)));
    Ok(())
}

/// Appends a compound: each entry with its type tag and name, then the tag
/// that ends it.
fn write_compound(entries: &Vec<(String, Tag)>, out: &mut Vec<u8>) -> (r: Result<(), DataError>)
    ensures
        match r {
            Ok(_) => TagModel::Compound(entries_view(entries@)).encodable() && final(out)@ == old(
                out,
            )@ + payload_encoding(TagModel::Compound(entries_view(entries@))),
            Err(e) => e == DataError::NBTError && !TagModel::Compound(
                entries_view(entries@),
            ).encodable(),
        },
    decreases entries, 1nat,
{
    let ghost named = entries_view(entries@);
    let mut i: usize = 0;
    assert(named.take(0) =~= Seq::<NamedTag>::empty());
    assert(out@ =~= old(out)@ + entries_encoding(named.take(0)));
    while i < entries.len()
        invariant
            i <= entries@.len(),
            named == entries_view(entries@),
            out@ == old(out)@ + entries_encoding(named.take(i as int)),
            forall|j: int| 0 <= j < i ==> (#[trigger] named[j]).tag.encodable(),
        decreases entries@.len() - i,
    {
        let ghost before = out@;
        let entry = &entries[i];
        assert(named[i as int] == (NamedTag { name: entry.0@, tag: entry.1@ }));
        out.push(get_id(&entry.1));
        put_text(entry.0.as_str(), out);
        match write_value(&entry.1, out) {
            Ok(()) => {},
            Err(e) => {
                assert(!named[i as int].tag.encodable());
                return Err(e);
            },
        }
        i = i + 1;
        assert(named.take(i as int).drop_last() =~= named.take(i - 1));
        assert(named.take(i as int).last() == named[i - 1]);
        assert(out@ =~= before + entry_encoding(named[i - 1].name, named[i - 1].tag));
        assert(out@ =~= old(out)@ + entries_encoding(named.take(i as int)));
    }
    assert(named.take(i as int) =~= named);
    out.push(TAG_END);
    assert(out@ =~= old(out)@ + payload_encoding(TagModel::Compound(named)));
    Ok(())
}

/// The bytes of a whole tree: the root's type tag, in file mode an empty
/// name, then the root's entries.
pub fn encode_nbt(tag: &Tag, to_file: bool) -> (r: Result<Vec<u8>, DataError>)
    ensures
        match nbt_encoding(tag@, to_file) {
            Ok(bytes) => r matches Ok(v) && v@ == bytes,
            Err(e) => r matches Err(f) && f == e,
        },
{
    match tag {
        Tag::Compound(entries) => {
            let mut out: Vec<u8> = Vec::new();
            out.push(TAG_COMPOUND);
            if to_file {
                push_be(&mut out, 0, 2);
                assert(be_bytes(0, 2) =~= seq![0u8, 0u8]) by {
                    reveal_with_fuel(be_bytes, 3);
                }
            }
            let ghost head = out@;
            match write_compound(entries, &mut out) {
                Ok(()) => {
                    assert(out@ =~= nbt_encoding(tag@, to_file)->Ok_0);
                    Ok(out)
                },
                Err(e) => Err(e),
            }
        },
        _ => Err(DataError::NBTError),
    }
}

/// Writing a tree of tags to a sink of bytes.
pub trait NbtWriter: Writer {
    /// Writes the tree under `tag`, whose root must be a compound, in one
    /// piece. `to_file` asks for the empty name that a file carries behind
    /// the root's type tag. A tree that cannot be written leaves the sink as
    /// it was.
    fn write_nbt(&mut self, tag: Tag, to_file: bool) -> (r: Result<(), DataError>)
        ensures
            match nbt_encoding(tag@, to_file) {
                Ok(bytes) => r is Ok && appended(final(self), old(self), bytes),
                Err(e) => r == Err::<(), DataError>(e) && *final(self) == *old(self),
            },
    {
        match encode_nbt(&tag, to_file) {
            Ok(bytes) => self.write_bytes(bytes.as_slice()),
            Err(e) => Err(e),
        }
    }
}

impl NbtWriter for Buffer {

}

} // verus!
