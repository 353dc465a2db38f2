//! The type tags of the tagged binary format.

use vstd::prelude::*;

verus! {

pub const TAG_END: u8 = 0;

pub const TAG_BYTE: u8 = 1;

pub const TAG_SHORT: u8 = 2;

pub const TAG_INT: u8 = 3;

pub const TAG_LONG: u8 = 4;

pub const TAG_FLOAT: u8 = 5;

pub const TAG_DOUBLE: u8 = 6;

pub const TAG_BYTE_ARRAY: u8 = 7;

pub const TAG_STRING: u8 = 8;

pub const TAG_LIST: u8 = 9;

pub const TAG_COMPOUND: u8 = 10;

pub const TAG_INT_ARRAY: u8 = 11;

pub const TAG_LONG_ARRAY: u8 = 12;

} // verus!
