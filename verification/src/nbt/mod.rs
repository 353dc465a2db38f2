//! The tagged binary format: a tree of typed values, named inside compounds.

use vstd::prelude::*;
use vstd::utf8::encode_utf8;
use tags::{
    TAG_BYTE, TAG_BYTE_ARRAY, TAG_COMPOUND, TAG_DOUBLE, TAG_END, TAG_FLOAT, TAG_INT, TAG_INT_ARRAY,
    TAG_LIST, TAG_LONG, TAG_LONG_ARRAY, TAG_SHORT, TAG_STRING,
};

pub mod reader;
pub mod roundtrip;
pub mod tags;
pub mod wellformed;
pub mod writer;

pub use reader::NbtReader;
pub use writer::NbtWriter;

verus! {

/// A node of the tree.
///
/// `Float` and `Double` hold the IEEE 754 bit pattern of their number, which is
/// what the format stores. A `Compound` holds its entries in the order in which
/// they are written; no name occurs twice in one that was read.
#[derive(Debug, PartialEq, Eq)]
pub enum Tag {
    End,
    Byte(i8),
    Short(i16),
    Int(i32),
    Long(i64),
    Float(u32),
    Double(u64),
    ByteArray(Vec<i8>),
    String(String),
    List(Vec<Tag>),
    Compound(Vec<(String, Tag)>),
    IntArray(Vec<i32>),
    LongArray(Vec<i64>),
}

/// What an entry of a compound is: a name and the model of the tag under it.
pub struct NamedTag {
    pub name: Seq<char>,
    pub tag: TagModel,
}

/// What a [`Tag`] is: the same tree over sequences.
pub enum TagModel {
    End,
    Byte(i8),
    Short(i16),
    Int(i32),
    Long(i64),
    Float(u32),
    Double(u64),
    ByteArray(Seq<i8>),
    String(Seq<char>),
    List(Seq<TagModel>),
    Compound(Seq<NamedTag>),
    IntArray(Seq<i32>),
    LongArray(Seq<i64>),
}

/// The models of a run of tags.
pub open spec fn list_view(tags: Seq<Tag>) -> Seq<TagModel>
    decreases tags, 0nat,
{
    Seq::new(
        tags.len(),
        |i: int|
            if 0 <= i < tags.len() {
                tags[i]@
            } else {
                TagModel::End
            },
    )
}

/// The models of a run of named tags.
pub open spec fn entries_view(entries: Seq<(String, Tag)>) -> Seq<NamedTag>
    decreases entries, 0nat,
{
    Seq::new(
        entries.len(),
        |i: int|
            if 0 <= i < entries.len() {
                NamedTag { name: entries[i].0@, tag: entries[i].1@ }
            } else {
                NamedTag { name: Seq::empty(), tag: TagModel::End }
            },
    )
}

impl View for Tag {
    type V = TagModel;

    open spec fn view(&self) -> TagModel
        decreases self, 0nat,
    {
        match self {
            Tag::End => TagModel::End,
            Tag::Byte(v) => TagModel::Byte(*v),
            Tag::Short(v) => TagModel::Short(*v),
            Tag::Int(v) => TagModel::Int(*v),
            Tag::Long(v) => TagModel::Long(*v),
            Tag::Float(v) => TagModel::Float(*v),
            Tag::Double(v) => TagModel::Double(*v),
            Tag::ByteArray(v) => TagModel::ByteArray(v@),
            Tag::String(v) => TagModel::String(v@),
            Tag::List(v) => TagModel::List(list_view(v@)),
            Tag::Compound(v) => TagModel::Compound(entries_view(v@)),
            Tag::IntArray(v) => TagModel::IntArray(v@),
            Tag::LongArray(v) => TagModel::LongArray(v@),
        }
    }
}

/// The type tag that stands for a node's variant.
pub open spec fn tag_id(t: TagModel) -> u8 {
    match t {
        TagModel::End => TAG_END,
        TagModel::Byte(_) => TAG_BYTE,
        TagModel::Short(_) => TAG_SHORT,
        TagModel::Int(_) => TAG_INT,
        TagModel::Long(_) => TAG_LONG,
        TagModel::Float(_) => TAG_FLOAT,
        TagModel::Double(_) => TAG_DOUBLE,
        TagModel::ByteArray(_) => TAG_BYTE_ARRAY,
        TagModel::String(_) => TAG_STRING,
        TagModel::List(_) => TAG_LIST,
        TagModel::Compound(_) => TAG_COMPOUND,
        TagModel::IntArray(_) => TAG_INT_ARRAY,
        TagModel::LongArray(_) => TAG_LONG_ARRAY,
    }
}

/// Every item has the type of the first.
pub open spec fn uniform(items: Seq<TagModel>) -> bool {
    forall|i: int| 0 <= i < items.len() ==> tag_id(#[trigger] items[i]) == tag_id(items[0])
}

/// The type tag that a list declares for its items: that of the first, or
/// `TAG_END` for a list without items.
pub open spec fn list_type(items: Seq<TagModel>) -> u8 {
    if items.len() == 0 {
        TAG_END
    } else {
        tag_id(items[0])
    }
}

/// No name occurs twice.
pub open spec fn distinct_names(entries: Seq<NamedTag>) -> bool {
    forall|i: int, j: int|
        0 <= i < j < entries.len() ==> (#[trigger] entries[i]).name != (#[trigger] entries[j]).name
}

impl TagModel {
    /// The tree can be written: the items of every list in it share one type.
    pub open spec fn encodable(self) -> bool
        decreases self,
    {
        match self {
            TagModel::List(items) => uniform(items) && forall|i: int|
                0 <= i < items.len() ==> (#[trigger] items[i]).encodable(),
            TagModel::Compound(entries) => forall|i: int|
                0 <= i < entries.len() ==> (#[trigger] entries[i]).tag.encodable(),
            _ => true,
        }
    }

    /// The tree is what a mapping by name allows: in every compound in it no
    /// name occurs twice.
    pub open spec fn well_formed(self) -> bool
        decreases self,
    {
        match self {
            TagModel::List(items) => forall|i: int|
                0 <= i < items.len() ==> (#[trigger] items[i]).well_formed(),
            TagModel::Compound(entries) => distinct_names(entries) && forall|i: int|
                0 <= i < entries.len() ==> (#[trigger] entries[i]).tag.well_formed(),
            _ => true,
        }
    }

    /// The tree can be read back from what is written for it: every count
    /// fits the bytes that hold it (two for the bytes of a text, of a name and
    /// of a byte array, four for the numbers of an array, the positive part
    /// of a signed four for the items of a list), and no entry of a compound
    /// holds an end tag, whose type is what ends the compound.
    pub open spec fn representable(self) -> bool
        decreases self,
    {
        match self {
            TagModel::ByteArray(values) => values.len() < 0x1_0000,
            TagModel::String(text) => encode_utf8(text).len() < 0x1_0000,
            TagModel::List(items) => items.len() <= i32::MAX && forall|i: int|
                0 <= i < items.len() ==> (#[trigger] items[i]).representable(),
            TagModel::Compound(entries) => forall|i: int|
                0 <= i < entries.len() ==> {
                    &&& encode_utf8((#[trigger] entries[i]).name).len() < 0x1_0000
                    &&& !(entries[i].tag is End)
                    &&& entries[i].tag.representable()
                },
            TagModel::IntArray(values) => values.len() < 0x1_0000_0000,
            TagModel::LongArray(values) => values.len() < 0x1_0000_0000,
            _ => true,
        }
    }

    /// The tree is written and read back unchanged.
    pub open spec fn sound(self) -> bool {
        self.encodable() && self.well_formed() && self.representable()
    }
}

} // verus!
