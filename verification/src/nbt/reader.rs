//! Reading a tree of tags.

use vstd::prelude::*;
use vstd::slice::slice_subrange;
use vstd::utf8::{decode_utf8, valid_utf8};
use crate::data::DataError;
use crate::data::buffer::Buffer;
use crate::data::endian::{be_decode, be_value, lemma_pow256_widths};
use crate::data::reader::{
    decode_scalar, int_decoding, long_decoding, outcome_view, scalar_decoding, short_decoding,
    signed_byte_decoding, signed_int_decoding, signed_long_decoding, signed_short_decoding, Reader,
    Source,
};
use super::{entries_view, list_view, NamedTag, Tag, TagModel};
use super::tags::{
    TAG_BYTE, TAG_BYTE_ARRAY, TAG_COMPOUND, TAG_DOUBLE, TAG_END, TAG_FLOAT, TAG_INT, TAG_INT_ARRAY,
    TAG_LIST, TAG_LONG, TAG_LONG_ARRAY, TAG_SHORT, TAG_STRING,
};

verus! {

/// The text that `String::from_utf8_lossy` makes of bytes that are not
/// well-formed UTF-8.
pub uninterp spec fn utf8_lossy(bytes: Seq<u8>) -> Seq<char>;

/// Bytes read leniently as text: the text they encode where they are
/// well-formed UTF-8, and otherwise what a lossy conversion makes of them.
pub open spec fn lenient_text(bytes: Seq<u8>) -> Seq<char> {
    if valid_utf8(bytes) {
        decode_utf8(bytes)
    } else {
        utf8_lossy(bytes)
    }
}

/// `String::from_utf8_lossy` of std, as an owned string: the text that `bytes`
/// encode where they are well-formed UTF-8, and otherwise whatever text std
/// makes of them, which the contract only names.
#[verifier::external_body]
fn string_from_utf8_lossy(bytes: &[u8]) -> (text: String)
    ensures
        valid_utf8(bytes@) ==> text@ == decode_utf8(bytes@),
        !valid_utf8(bytes@) ==> text@ == utf8_lossy(bytes@),
{
    String::from_utf8_lossy(bytes).into_owned()
}

/// The text at the start of `s`: the count of its bytes in two bytes, then the
/// bytes, read leniently.
pub open spec fn text_decoding(s: Seq<u8>) -> Result<(Seq<char>, nat), DataError> {
    match short_decoding(s) {
        Err(e) => Err(e),
        Ok((len, _)) => if 2 + len > s.len() {
            Err(DataError::ReadError)
        } else {
            Ok((lenient_text(s.subrange(2, 2 + len)), (2 + len) as nat))
        },
    }
}

/// The signed bytes at the start of `s`, behind their count in two bytes.
pub open spec fn byte_array_decoding(s: Seq<u8>) -> Result<(Seq<i8>, nat), DataError> {
    match short_decoding(s) {
        Err(e) => Err(e),
        Ok((len, _)) => if 2 + len > s.len() {
            Err(DataError::ReadError)
        } else {
            Ok((Seq::new(len as nat, |i: int| s[2 + i] as i8), (2 + len) as nat))
        },
    }
}

/// The signed 32-bit numbers at the start of `s`, behind their count in four
/// bytes.
pub open spec fn int_array_decoding(s: Seq<u8>) -> Result<(Seq<i32>, nat), DataError> {
    match int_decoding(s) {
        Err(e) => Err(e),
        Ok((count, _)) => if 4 + 4 * count > s.len() {
            Err(DataError::ReadError)
        } else {
            Ok(
                (
                    Seq::new(
                        count as nat,
                        |i: int| (be_value(s.subrange(4 + 4 * i, 8 + 4 * i)) as u32) as i32,
                    ),
                    (4 + 4 * count) as nat,
                ),
            )
        },
    }
}

/// The signed 64-bit numbers at the start of `s`, behind their count in four
/// bytes.
pub open spec fn long_array_decoding(s: Seq<u8>) -> Result<(Seq<i64>, nat), DataError> {
    match int_decoding(s) {
        Err(e) => Err(e),
        Ok((count, _)) => if 4 + 8 * count > s.len() {
            Err(DataError::ReadError)
        } else {
            Ok(
                (
                    Seq::new(
                        count as nat,
                        |i: int| (be_value(s.subrange(4 + 8 * i, 12 + 8 * i)) as u64) as i64,
                    ),
                    (4 + 8 * count) as nat,
                ),
            )
        },
    }
}

/// `r` with its value under `wrap`.
pub open spec fn tagged<T>(r: Result<(T, nat), DataError>, wrap: spec_fn(T) -> TagModel) -> Result<
    (TagModel, nat),
    DataError,
> {
    match r {
        Ok((value, n)) => Ok((wrap(value), n)),
        Err(e) => Err(e),
    }
}

/// The value of a type that holds one number, at the start of `s`.
pub open spec fn scalar_tag_decoding(s: Seq<u8>, ty: u8) -> Result<(TagModel, nat), DataError> {
    if ty == TAG_END {
        tagged(scalar_decoding(s, 1), |v: nat| TagModel::End)
    } else if ty == TAG_BYTE {
        tagged(signed_byte_decoding(s), |v: i8| TagModel::Byte(v))
    } else if ty == TAG_SHORT {
        tagged(signed_short_decoding(s), |v: i16| TagModel::Short(v))
    } else if ty == TAG_INT {
        tagged(signed_int_decoding(s), |v: i32| TagModel::Int(v))
    } else if ty == TAG_LONG {
        tagged(signed_long_decoding(s), |v: i64| TagModel::Long(v))
    } else if ty == TAG_FLOAT {
        tagged(int_decoding(s), |v: u32| TagModel::Float(v))
    } else {
        tagged(long_decoding(s), |v: u64| TagModel::Double(v))
    }
}

/// The value of a type that holds text or a run of numbers, at the start of
/// `s`; `NBTError` where `ty` is no such type.
pub open spec fn array_tag_decoding(s: Seq<u8>, ty: u8) -> Result<(TagModel, nat), DataError> {
    if ty == TAG_BYTE_ARRAY {
        tagged(byte_array_decoding(s), |v: Seq<i8>| TagModel::ByteArray(v))
    } else if ty == TAG_STRING {
        tagged(text_decoding(s), |v: Seq<char>| TagModel::String(v))
    } else if ty == TAG_INT_ARRAY {
        tagged(int_array_decoding(s), |v: Seq<i32>| TagModel::IntArray(v))
    } else if ty == TAG_LONG_ARRAY {
        tagged(long_array_decoding(s), |v: Seq<i64>| TagModel::LongArray(v))
    } else {
        Err(DataError::NBTError)
    }
}

/// The count that the list at the start of `s` declares: the four bytes
/// behind the type of its items, as a signed number.
pub open spec fn list_count(s: Seq<u8>) -> i32 {
    (be_value(s.subrange(1, 5)) as u32) as i32
}

/// The value of type `ty` at the start of `s`, and the count of its bytes.
/// A list is the type of its items in one byte, their count in four, and as
/// many values of that type, none where the count is not positive; a compound
/// is its entries as a mapping by name. `NBTError` where `ty` is no type of
/// the format, `ReadError` where `s` ends before the value does.
pub open spec fn value_decoding(s: Seq<u8>, ty: u8) -> Result<(TagModel, nat), DataError>
    decreases s.len(), 1nat,
{
    if ty <= TAG_DOUBLE {
        scalar_tag_decoding(s, ty)
    } else if ty == TAG_LIST {
        if s.len() < 5 {
            Err(DataError::ReadError)
        } else if list_count(s) <= 0 {
            Ok((TagModel::List(Seq::empty()), 5))
        } else {
            match items_decoding(s.skip(5), s[0], list_count(s) as nat) {
                Ok((items, n)) => Ok((TagModel::List(items), 5 + n)),
                Err(e) => Err(e),
            }
        }
    } else if ty == TAG_COMPOUND {
        match entries_decoding(s) {
            Ok((entries, n)) => Ok((TagModel::Compound(merged(entries)), n)),
            Err(e) => Err(e),
        }
    } else {
        array_tag_decoding(s, ty)
    }
}

/// `count` values of type `ty` one after the other at the start of `s`.
/// (No value takes more bytes than there are: the test for it only serves to
/// show that the definition is well-founded.)
pub open spec fn items_decoding(s: Seq<u8>, ty: u8, count: nat) -> Result<
    (Seq<TagModel>, nat),
    DataError,
>
    decreases s.len(), count + 2,
{
    if count == 0 {
        Ok((Seq::empty(), 0))
    } else {
        match value_decoding(s, ty) {
            Err(e) => Err(e),
            Ok((item, n)) => if n > s.len() {
                Err(DataError::ReadError)
            } else {
                match items_decoding(s.skip(n as int), ty, (count - 1) as nat) {
                    Err(e) => Err(e),
                    Ok((rest, m)) => Ok((seq![item] + rest, n + m)),
                }
            },
        }
    }
}

/// The entries of a compound at the start of `s`, in the order read and up to
/// the tag that ends them: each a type tag, a name and a value of that type.
/// (No value takes more bytes than there are: the test for it only serves to
/// show that the definition is well-founded.)
pub open spec fn entries_decoding(s: Seq<u8>) -> Result<(Seq<NamedTag>, nat), DataError>
    decreases s.len(), 0nat,
{
    if s.len() == 0 {
        Err(DataError::ReadError)
    } else if s[0] == TAG_END {
        Ok((Seq::empty(), 1))
    } else {
        match text_decoding(s.skip(1)) {
            Err(e) => Err(e),
            Ok((name, m)) => match value_decoding(s.skip((1 + m) as int), s[0]) {
                Err(e) => Err(e),
                Ok((tag, n)) => if 1 + m + n > s.len() {
                    Err(DataError::ReadError)
                } else {
                    match entries_decoding(s.skip((1 + m + n) as int)) {
                        Err(e) => Err(e),
                        Ok((rest, k)) => Ok(
                            (seq![NamedTag { name, tag }] + rest, 1 + m + n + k),
                        ),
                    }
                },
            },
        }
    }
}

/// `index` is where `name` first occurs in `entries`.
pub open spec fn first_named(entries: Seq<NamedTag>, name: Seq<char>, index: int) -> bool {
    &&& 0 <= index < entries.len()
    &&& entries[index].name == name
    &&& forall|k: int| 0 <= k < index ==> (#[trigger] entries[k]).name != name
}

/// `entries` with `entry` put under its name: in the place of the entry that
/// has the name already, or at the end where none has.
pub open spec fn upserted(entries: Seq<NamedTag>, entry: NamedTag) -> Seq<NamedTag> {
    if exists|index: int| first_named(entries, entry.name, index) {
        entries.update(choose|index: int| first_named(entries, entry.name, index), entry)
    } else {
        entries.push(entry)
    }
}

/// The mapping that entries read one after the other leave: each name once,
/// where it first stood, with the value that was read for it last.
pub open spec fn merged(entries: Seq<NamedTag>) -> Seq<NamedTag>
    decreases entries.len(),
{
    if entries.len() == 0 {
        Seq::empty()
    } else {
        upserted(merged(entries.drop_last()), entries.last())
    }
}

/// A whole tree at the start of `s`, and the count of its bytes: the root's
/// type tag, which must be that of a compound (`NBTError` otherwise), then,
/// where `named` is set, a name that is passed over, then the root's entries.
pub open spec fn nbt_decoding(s: Seq<u8>, named: bool) -> Result<(TagModel, nat), DataError> {
    if s.len() == 0 {
        Err(DataError::ReadError)
    } else if s[0] != TAG_COMPOUND {
        Err(DataError::NBTError)
    } else {
        let header = if named {
            text_decoding(s.skip(1))
        } else {
            Ok((Seq::empty(), 0))
        };
        match header {
            Err(e) => Err(e),
            Ok((_, m)) => match value_decoding(s.skip((1 + m) as int), TAG_COMPOUND) {
                Err(e) => Err(e),
                Ok((root, n)) => Ok((root, 1 + m + n)),
            },
        }
    }
}

/// Reads the text at the start of `bytes`.
fn read_text(bytes: &[u8]) -> (r: Result<(String, usize), DataError>)
    ensures
        match text_decoding(bytes@) {
            Ok((text, n)) => r matches Ok((t, m)) && t@ == text && m == n && 2 <= n <= bytes@.len(),
            Err(e) => r matches Err(f) && f == e,
        },
{
    proof {
        lemma_pow256_widths();
    }
    match decode_scalar(bytes, 2) {
        Err(e) => Err(e),
        Ok((count, _)) => {
            let len: usize = count as usize;
            if len > bytes.len() - 2 {
                return Err(DataError::ReadError);
            }
            let text = string_from_utf8_lossy(slice_subrange(bytes, 2, 2 + len));
            Ok((text, 2 + len))
        },
    }
}

/// Reads the signed bytes at the start of `bytes`.
fn read_byte_array(bytes: &[u8]) -> (r: Result<(Vec<i8>, usize), DataError>)
    ensures
        match byte_array_decoding(bytes@) {
            Ok((values, n)) => r matches Ok((v, m)) && v@ == values && m == n && 2 <= n
                <= bytes@.len(),
            Err(e) => r matches Err(f) && f == e,
        },
{
    proof {
        lemma_pow256_widths();
    }
    match decode_scalar(bytes, 2) {
        Err(e) => Err(e),
        Ok((count, _)) => {
            let len: usize = count as usize;
            if len > bytes.len() - 2 {
                return Err(DataError::ReadError);
            }
            let mut out: Vec<i8> = Vec::new();
            let mut i: usize = 0;
            while i < len
                invariant
                    i <= len,
                    2 + len <= bytes@.len() <= usize::MAX,
                    out@.len() == i,
                    forall|j: int| 0 <= j < i ==> out@[j] == bytes@[2 + j] as i8,
                decreases len - i,
            {
                out.push(#[verifier::truncate] (bytes[2 + i] as i8));
                i = i + 1;
            }
            assert(out@ =~= byte_array_decoding(bytes@)->Ok_0.0);
            Ok((out, 2 + len))
        },
    }
}

/// Reads the signed 32-bit numbers at the start of `bytes`.
fn read_int_array(bytes: &[u8]) -> (r: Result<(Vec<i32>, usize), DataError>)
    ensures
        match int_array_decoding(bytes@) {
            Ok((values, n)) => r matches Ok((v, m)) && v@ == values && m == n && 4 <= n
                <= bytes@.len(),
            Err(e) => r matches Err(f) && f == e,
        },
{
    proof {
        lemma_pow256_widths();
    }
    match decode_scalar(bytes, 4) {
        Err(e) => Err(e),
        Ok((count, _)) => {
            if count * 4 > (bytes.len() - 4) as u128 {
                return Err(DataError::ReadError);
            }
            let len: usize = count as usize;
            let mut out: Vec<i32> = Vec::new();
            let mut i: usize = 0;
            while i < len
                invariant
                    i <= len,
                    4 + 4 * len <= bytes@.len() <= usize::MAX,
                    out@.len() == i,
                    forall|j: int|
                        0 <= j < i ==> out@[j] == (be_value(
                            bytes@.subrange(4 + 4 * j, 8 + 4 * j),
                        ) as u32) as i32,
                decreases len - i,
            {
                let start: usize = 4 + 4 * i;
                let piece = slice_subrange(bytes, start, start + 4);
                proof {
                    lemma_pow256_widths();
                }
                let v: u128 = be_decode(piece);
                out.push(#[verifier::truncate] ((v as u32) as i32));
                i = i + 1;
            }
            assert(out@ =~= int_array_decoding(bytes@)->Ok_0.0);
            Ok((out, 4 + 4 * len))
        },
    }
}

/// Reads the signed 64-bit numbers at the start of `bytes`.
fn read_long_array(bytes: &[u8]) -> (r: Result<(Vec<i64>, usize), DataError>)
    ensures
        match long_array_decoding(bytes@) {
            Ok((values, n)) => r matches Ok((v, m)) && v@ == values && m == n && 4 <= n
                <= bytes@.len(),
            Err(e) => r matches Err(f) && f == e,
        },
{
    proof {
        lemma_pow256_widths();
    }
    match decode_scalar(bytes, 4) {
        Err(e) => Err(e),
        Ok((count, _)) => {
            if count * 8 > (bytes.len() - 4) as u128 {
                return Err(DataError::ReadError);
            }
            let len: usize = count as usize;
            let mut out: Vec<i64> = Vec::new();
            let mut i: usize = 0;
            while i < len
                invariant
                    i <= len,
                    4 + 8 * len <= bytes@.len() <= usize::MAX,
                    out@.len() == i,
                    forall|j: int|
                        0 <= j < i ==> out@[j] == (be_value(
                            bytes@.subrange(4 + 8 * j, 12 + 8 * j),
                        ) as u64) as i64,
                decreases len - i,
            {
                let start: usize = 4 + 8 * i;
                let piece = slice_subrange(bytes, start, start + 8);
                proof {
                    lemma_pow256_widths();
                }
                let v: u128 = be_decode(piece);
                out.push(#[verifier::truncate] ((v as u64) as i64));
                i = i + 1;
            }
            assert(out@ =~= long_array_decoding(bytes@)->Ok_0.0);
            Ok((out, 4 + 8 * len))
        },
    }
}

/// Puts `tag` under `name` in `map`: in the place of the entry that has the
/// name already, or at the end.
fn upsert(map: &mut Vec<(String, Tag)>, name: String, tag: Tag)
    ensures
        entries_view(final(map)@) == upserted(
            entries_view(old(map)@),
            NamedTag { name: name@, tag: tag@ },
        ),
{
    let ghost before = entries_view(map@);
    let ghost entry = NamedTag { name: name@, tag: tag@ };
    let mut j: usize = 0;
    while j < map.len()
        invariant
            j <= map@.len(),
            map@ == old(map)@,
            before == entries_view(map@),
            entry == (NamedTag { name: name@, tag: tag@ }),
            forall|k: int| 0 <= k < j ==> (#[trigger] before[k]).name != name@,
        decreases map@.len() - j,
    {
        assert(before[j as int].name == map@[j as int].0@);
        if map[j].0 == name {
            assert(first_named(before, name@, j as int));
            assert forall|index: int| first_named(before, name@, index) implies index == j by {
                if index < j {
                    assert(before[index].name != name@);
                }
                if j < index {
                    assert(before[j as int].name != name@);
                }
            }
            proof {
                let found = choose|index: int| first_named(before, entry.name, index);
                assert(first_named(before, entry.name, found));
                assert(found == j);
            }
            map.set(j, (name, tag));
            assert forall|k: int| 0 <= k < before.len() implies entries_view(map@)[k]
                == before.update(j as int, entry)[k] by {
                if k != j {
                    assert(map@[k] == old(map)@[k]);
                    assert(before[k] == (NamedTag {
                        name: old(map)@[k].0@,
                        tag: old(map)@[k].1@,
                    }));
                }
            }
            assert(entries_view(map@) =~= before.update(j as int, entry));
            return ;
        }
        j = j + 1;
    }
    assert forall|index: int| !first_named(before, name@, index) by {
        if 0 <= index < before.len() {
            assert(before[index].name != name@);
        }
    }
    map.push((name, tag));
    assert forall|k: int| 0 <= k < before.len() implies entries_view(map@)[k] == before[k] by {
        assert(map@[k] == old(map)@[k]);
        assert(before[k] == (NamedTag { name: old(map)@[k].0@, tag: old(map)@[k].1@ }));
    }
    assert(entries_view(map@) =~= before.push(entry));
}

/// Reads a value of a type that holds one number.
fn read_scalar(bytes: &[u8], ty: u8) -> (r: Result<(Tag, usize), DataError>)
    requires
        ty <= TAG_DOUBLE,
    ensures
        match scalar_tag_decoding(bytes@, ty) {
            Ok((t, n)) => r matches Ok((tag, m)) && tag@ == t && m == n && 1 <= n <= bytes@.len(),
            Err(e) => r matches Err(f) && f == e,
        },
{
    proof {
        lemma_pow256_widths();
    }
    if ty == TAG_END {
        match decode_scalar(bytes, 1) {
            Ok((_, n)) => Ok((Tag::End, n)),
            Err(e) => Err(e),
        }
    } else if ty == TAG_BYTE {
        match decode_scalar(bytes, 1) {
            Ok((v, n)) => Ok((Tag::Byte(#[verifier::truncate] ((v as u8) as i8)), n)),
            Err(e) => Err(e),
        }
    } else if ty == TAG_SHORT {
        match decode_scalar(bytes, 2) {
            Ok((v, n)) => Ok((Tag::Short(#[verifier::truncate] ((v as u16) as i16)), n)),
            Err(e) => Err(e),
        }
    } else if ty == TAG_INT {
        match decode_scalar(bytes, 4) {
            Ok((v, n)) => Ok((Tag::Int(#[verifier::truncate] ((v as u32) as i32)), n)),
            Err(e) => Err(e),
        }
    } else if ty == TAG_LONG {
        match decode_scalar(bytes, 8) {
            Ok((v, n)) => Ok((Tag::Long(#[verifier::truncate] ((v as u64) as i64)), n)),
            Err(e) => Err(e),
        }
    } else if ty == TAG_FLOAT {
        match decode_scalar(bytes, 4) {
            Ok((v, n)) => Ok((Tag::Float(v as u32), n)),
            Err(e) => Err(e),
        }
    } else {
        match decode_scalar(bytes, 8) {
            Ok((v, n)) => Ok((Tag::Double(v as u64), n)),
            Err(e) => Err(e),
        }
    }
}

/// Reads a value of a type that holds text or a run of numbers.
fn read_array(bytes: &[u8], ty: u8) -> (r: Result<(Tag, usize), DataError>)
    ensures
        match array_tag_decoding(bytes@, ty) {
            Ok((t, n)) => r matches Ok((tag, m)) && tag@ == t && m == n && 1 <= n <= bytes@.len(),
            Err(e) => r matches Err(f) && f == e,
        },
{
    if ty == TAG_BYTE_ARRAY {
        match read_byte_array(bytes) {
            Ok((values, n)) => Ok((Tag::ByteArray(values), n)),
            Err(e) => Err(e),
        }
    } else if ty == TAG_STRING {
        match read_text(bytes) {
            Ok((text, n)) => Ok((Tag::String(text), n)),
            Err(e) => Err(e),
        }
    } else if ty == TAG_INT_ARRAY {
        match read_int_array(bytes) {
            Ok((values, n)) => Ok((Tag::IntArray(values), n)),
            Err(e) => Err(e),
        }
    } else if ty == TAG_LONG_ARRAY {
        match read_long_array(bytes) {
            Ok((values, n)) => Ok((Tag::LongArray(values), n)),
            Err(e) => Err(e),
        }
    } else {
        Err(DataError::NBTError)
    }
}

/// Reads a value of type `ty` at the start of `bytes` and says how many
/// bytes it took.
fn read_value(bytes: &[u8], ty: u8) -> (r: Result<(Tag, usize), DataError>)
    ensures
        match value_decoding(bytes@, ty) {
            Ok((t, n)) => r matches Ok((tag, m)) && tag@ == t && m == n && 1 <= n <= bytes@.len(),
            Err(e) => r matches Err(f) && f == e,
        },
    decreases bytes@.len(), 1nat,
{
    if ty <= TAG_DOUBLE {
        read_scalar(bytes, ty)
    } else if ty == TAG_LIST {
        match read_list(bytes) {
            Ok((list, n)) => Ok((Tag::List(list), n)),
            Err(e) => Err(e),
        }
    } else if ty == TAG_COMPOUND {
        match read_compound(bytes) {
            Ok((map, n)) => Ok((Tag::Compound(map), n)),
            Err(e) => Err(e),
        }
    } else {
        read_array(bytes, ty)
    }
}

/// Reads a list at the start of `bytes`: the type of its items, their count,
/// and as many values of that type; none where the count is not positive.
fn read_list(bytes: &[u8]) -> (r: Result<(Vec<Tag>, usize), DataError>)
    ensures
        match value_decoding(bytes@, TAG_LIST) {
            Ok((t, n)) => r matches Ok((list, m)) && TagModel::List(list_view(list@)) == t && m
                == n && 1 <= n <= bytes@.len(),
            Err(e) => r matches Err(f) && f == e,
        },
    decreases bytes@.len(), 0nat,
{
    let ghost s = bytes@;
    let mut list: Vec<Tag> = Vec::new();
    if bytes.len() < 5 {
        return Err(DataError::ReadError);
    }
    let type_of_list: u8 = bytes[0];
    proof {
        lemma_pow256_widths();
    }
    let count_bits: u128 = be_decode(slice_subrange(bytes, 1, 5));
    let size_of_list: i32 = #[verifier::truncate] ((count_bits as u32) as i32);
    if size_of_list <= 0 {
        assert(list_view(list@) =~= Seq::<TagModel>::empty());
        return Ok((list, 5));
    }
    let count: usize = size_of_list as usize;
    let mut pos: usize = 5;
    let mut i: usize = 0;
    assert(list_view(list@) =~= Seq::<TagModel>::empty());
    assert(s.skip(5) =~= s.skip(pos as int));
    while i < count
        invariant
            s == bytes@,
            i <= count,
            5 <= pos <= s.len(),
            list@.len() == i,
            count == list_count(s),
            type_of_list == s[0],
            match items_decoding(s.skip(pos as int), type_of_list, (count - i) as nat) {
                Ok((rest, m)) => items_decoding(s.skip(5), type_of_list, count as nat) == Ok::<
                    (Seq<TagModel>, nat),
                    DataError,
                >((list_view(list@) + rest, (pos - 5 + m) as nat)),
                Err(e) => items_decoding(s.skip(5), type_of_list, count as nat) == Err::<
                    (Seq<TagModel>, nat),
                    DataError,
                >(e),
            },
        decreases count - i,
    {
        let ghost here = s.skip(pos as int);
        let ghost done = list_view(list@);
        match read_value(slice_subrange(bytes, pos, bytes.len()), type_of_list) {
            Err(e) => {
                assert(items_decoding(here, type_of_list, (count - i) as nat) == Err::<
                    (Seq<TagModel>, nat),
                    DataError,
                >(e));
                return Err(e);
            },
            Ok((tag, n)) => {
                proof {
                    assert(here.skip(n as int) =~= s.skip(pos + n));
                    let after = items_decoding(
                        s.skip(pos + n),
                        type_of_list,
                        (count - i - 1) as nat,
                    );
                    if after is Ok {
                        let rest = after->Ok_0.0;
                        assert(done + (seq![tag@] + rest) =~= done.push(tag@) + rest);
                    }
                }
                list.push(tag);
                assert(list_view(list@) =~= done.push(tag@));
                pos = pos + n;
                i = i + 1;
            },
        }
    }
    proof {
        assert(list_view(list@) + Seq::<TagModel>::empty() =~= list_view(list@));
    }
    Ok((list, pos))
}

/// Reads the entries of a compound at the start of `bytes`, up to the tag
/// that ends them, into a mapping by name.
fn read_compound(bytes: &[u8]) -> (r: Result<(Vec<(String, Tag)>, usize), DataError>)
    ensures
        match entries_decoding(bytes@) {
            Ok((entries, n)) => r matches Ok((map, m)) && entries_view(map@) == merged(entries)
                && m == n && 1 <= n <= bytes@.len(),
            Err(e) => r matches Err(f) && f == e,
        },
    decreases bytes@.len(), 0nat,
{
    let ghost s = bytes@;
    let ghost mut raw: Seq<NamedTag> = Seq::empty();
    let mut map: Vec<(String, Tag)> = Vec::new();
    let mut pos: usize = 0;
    assert(s.skip(0) =~= s);
    assert(entries_view(map@) =~= merged(raw));
    loop
        invariant
            s == bytes@,
            pos <= s.len(),
            entries_view(map@) == merged(raw),
            match entries_decoding(s.skip(pos as int)) {
                Ok((rest, m)) => entries_decoding(s) == Ok::<(Seq<NamedTag>, nat), DataError>(
                    (raw + rest, (pos + m) as nat),
                ),
                Err(e) => entries_decoding(s) == Err::<(Seq<NamedTag>, nat), DataError>(e),
            },
        decreases s.len() - pos,
    {
        let ghost here = s.skip(pos as int);
        if pos >= bytes.len() {
            return Err(DataError::ReadError);
        }
        let type_of_value: u8 = bytes[pos];
        if type_of_value == TAG_END {
            proof {
                assert(raw + Seq::<NamedTag>::empty() =~= raw);
            }
            return Ok((map, pos + 1));
        }
        assert(here.skip(1) =~= s.skip(pos + 1));
        let (name, m) = match read_text(slice_subrange(bytes, pos + 1, bytes.len())) {
            Ok(found) => found,
            Err(e) => {
                return Err(e);
            },
        };
        assert(here.skip(1 + m) =~= s.skip(pos + 1 + m));
        let (tag, n) = match read_value(
            slice_subrange(bytes, pos + 1 + m, bytes.len()),
            type_of_value,
        ) {
            Ok(found) => found,
            Err(e) => {
                return Err(e);
            },
        };
        proof {
            let entry = NamedTag { name: name@, tag: tag@ };
            assert(here.skip(1 + m + n) =~= s.skip(pos + 1 + m + n));
            let after = entries_decoding(s.skip(pos + 1 + m + n));
            if after is Ok {
                let rest = after->Ok_0.0;
                assert(raw + (seq![entry] + rest) =~= raw.push(entry) + rest);
            }
            assert(raw.push(entry).drop_last() =~= raw);
            raw = raw.push(entry);
        }
        upsert(&mut map, name, tag);
        pos = pos + 1 + m + n;
    }
}

/// Reads a whole tree at the start of `bytes` and says how many bytes it
/// took. `named` says whether a name stands behind the root's type tag.
pub fn decode_nbt(bytes: &[u8], named: bool) -> (r: Result<(Tag, usize), DataError>)
    ensures
        match nbt_decoding(bytes@, named) {
            Ok((t, n)) => r matches Ok((tag, m)) && tag@ == t && m == n && n <= bytes@.len(),
            Err(e) => r matches Err(f) && f == e,
        },
{
    if bytes.len() == 0 {
        return Err(DataError::ReadError);
    }
    if bytes[0] != TAG_COMPOUND {
        return Err(DataError::NBTError);
    }
    let start: usize = if named {
        match read_text(slice_subrange(bytes, 1, bytes.len())) {
            Ok((_, m)) => 1 + m,
            Err(e) => {
                return Err(e);
            },
        }
    } else {
        1
    };
    match read_value(slice_subrange(bytes, start, bytes.len()), TAG_COMPOUND) {
        Ok((root, n)) => Ok((root, start + n)),
        Err(e) => Err(e),
    }
}

/// Reading a tree of tags from a source of bytes.
pub trait NbtReader: Reader {
    /// Reads one tree, whose root must be a compound. `from_file` says
    /// whether a name stands behind the root's type tag, as it does in a
    /// file; the name is passed over.
    fn read_nbt(&mut self, from_file: bool) -> (r: Result<Tag, DataError>)
        ensures
            outcome_view(
                old(self),
                final(self),
                r,
                nbt_decoding(old(self).unread(), from_file),
            ),
    {
        match decode_nbt(self.peek(), from_file) {
            Ok((tag, n)) => {
                self.advance(n);
                Ok(tag)
            },
            Err(e) => Err(e),
        }
    }
}

impl NbtReader for Buffer {

}

} // verus!
