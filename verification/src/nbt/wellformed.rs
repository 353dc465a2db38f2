//! What is read is a tree that holds the format's rules.

use vstd::prelude::*;
use super::{distinct_names, tag_id, uniform, NamedTag, TagModel};
use super::reader::{
    entries_decoding, first_named, items_decoding, list_count, merged, nbt_decoding,
    text_decoding, upserted, value_decoding,
};
use super::tags::{TAG_COMPOUND, TAG_DOUBLE, TAG_END, TAG_LIST};

verus! {

/// The tree holds the rules for lists and for names.
pub open spec fn lawful(t: TagModel) -> bool {
    t.well_formed() && t.encodable()
}

/// Every value of the entries holds the rules.
pub open spec fn entries_lawful(entries: Seq<NamedTag>) -> bool {
    forall|i: int| 0 <= i < entries.len() ==> lawful((#[trigger] entries[i]).tag)
}

/// Where an entry has the name, an entry has it first.
pub proof fn lemma_first_named_exists(entries: Seq<NamedTag>, name: Seq<char>, k: int)
    requires
        0 <= k < entries.len(),
        entries[k].name == name,
    ensures
        exists|index: int| first_named(entries, name, index),
    decreases k,
{
    if forall|j: int| 0 <= j < k ==> (#[trigger] entries[j]).name != name {
        assert(first_named(entries, name, k));
    } else {
        let j = choose|j: int| 0 <= j < k && (#[trigger] entries[j]).name == name;
        lemma_first_named_exists(entries, name, j);
    }
}

/// Putting an entry under its name keeps the names distinct and the values
/// lawful.
pub proof fn lemma_upserted_lawful(entries: Seq<NamedTag>, entry: NamedTag)
    requires
        distinct_names(entries),
        entries_lawful(entries),
        lawful(entry.tag),
    ensures
        distinct_names(upserted(entries, entry)),
        entries_lawful(upserted(entries, entry)),
{
    let after = upserted(entries, entry);
    if exists|index: int| first_named(entries, entry.name, index) {
        let found = choose|index: int| first_named(entries, entry.name, index);
        assert forall|i: int, j: int| 0 <= i < j < after.len() implies (#[trigger] after[i]).name
            != (#[trigger] after[j]).name by {
            assert(after[i].name == entries[i].name);
            assert(after[j].name == entries[j].name);
        }
        assert forall|i: int| 0 <= i < after.len() implies lawful((#[trigger] after[i]).tag) by {
            if i != found {
                assert(after[i] == entries[i]);
            }
        }
    } else {
        assert forall|i: int, j: int| 0 <= i < j < after.len() implies (#[trigger] after[i]).name
            != (#[trigger] after[j]).name by {
            if j == entries.len() {
                if entries[i].name == entry.name {
                    lemma_first_named_exists(entries, entry.name, i);
                }
            } else {
                assert(after[i] == entries[i] && after[j] == entries[j]);
            }
        }
        assert forall|i: int| 0 <= i < after.len() implies lawful((#[trigger] after[i]).tag) by {
            if i < entries.len() {
                assert(after[i] == entries[i]);
            }
        }
    }
}

/// The mapping that entries leave has each name once, and lawful values
/// where the entries had them.
pub proof fn lemma_merged_lawful(entries: Seq<NamedTag>)
    requires
        entries_lawful(entries),
    ensures
        distinct_names(merged(entries)),
        entries_lawful(merged(entries)),
    decreases entries.len(),
{
    if entries.len() > 0 {
        let head = entries.drop_last();
        assert forall|i: int| 0 <= i < head.len() implies lawful((#[trigger] head[i]).tag) by {
            assert(head[i] == entries[i]);
        }
        lemma_merged_lawful(head);
        assert(lawful(entries[entries.len() - 1].tag));
        lemma_upserted_lawful(merged(head), entries.last());
    }
}

/// A value that is read has the type that was asked for, took at least one
/// byte and no more than there were, and holds the format's rules: the items
/// of every list in it share one type, and no compound in it has a name twice.
pub proof fn lemma_value_read_is_lawful(s: Seq<u8>, ty: u8)
    ensures
        value_decoding(s, ty) matches Ok((t, n)) ==> lawful(t) && tag_id(t) == ty && 1 <= n
            <= s.len(),
    decreases s.len(), 1nat,
{
    if ty <= TAG_DOUBLE {
    } else if ty == TAG_LIST {
        let count = list_count(s);
        if s.len() >= 5 && count > 0 {
            lemma_items_read_are_lawful(s.skip(5), s[0], count as nat);
            if value_decoding(s, ty) is Ok {
                let items = items_decoding(s.skip(5), s[0], count as nat)->Ok_0.0;
                assert(uniform(items)) by {
                    assert forall|i: int| 0 <= i < items.len() implies tag_id(#[trigger] items[i])
                        == tag_id(items[0]) by {
                        assert(tag_id(items[i]) == s[0]);
                        assert(tag_id(items[0]) == s[0]);
                    }
                }
            }
        }
    } else if ty == TAG_COMPOUND {
        lemma_entries_read_are_lawful(s);
        if entries_decoding(s) is Ok {
            lemma_merged_lawful(entries_decoding(s)->Ok_0.0);
        }
    } else {
    }
}

/// The items that are read are as many as were asked for, each of the type
/// asked for and lawful, and took no more bytes than there were.
pub proof fn lemma_items_read_are_lawful(s: Seq<u8>, ty: u8, count: nat)
    ensures
        items_decoding(s, ty, count) matches Ok((items, n)) ==> items.len() == count && n
            <= s.len() && forall|i: int|
            0 <= i < items.len() ==> lawful(#[trigger] items[i]) && tag_id(items[i]) == ty,
    decreases s.len(), count + 2,
{
    if count > 0 {
        lemma_value_read_is_lawful(s, ty);
        if value_decoding(s, ty) is Ok {
            let n = value_decoding(s, ty)->Ok_0.1;
            lemma_items_read_are_lawful(s.skip(n as int), ty, (count - 1) as nat);
        }
    }
}

/// The entries that are read have lawful values and took at least one byte
/// and no more than there were.
pub proof fn lemma_entries_read_are_lawful(s: Seq<u8>)
    ensures
        entries_decoding(s) matches Ok((entries, n)) ==> entries_lawful(entries) && 1 <= n
            <= s.len(),
    decreases s.len(), 0nat,
{
    if s.len() > 0 && s[0] != TAG_END {
        if text_decoding(s.skip(1)) is Ok {
            let m = text_decoding(s.skip(1))->Ok_0.1;
            lemma_value_read_is_lawful(s.skip((1 + m) as int), s[0]);
            if value_decoding(s.skip((1 + m) as int), s[0]) is Ok {
                let n = value_decoding(s.skip((1 + m) as int), s[0])->Ok_0.1;
                if 1 + m + n <= s.len() {
                    lemma_entries_read_are_lawful(s.skip((1 + m + n) as int));
                }
            }
        }
    }
}

/// A whole tree that is read is a compound that holds the format's rules,
/// and so can be written again.
pub proof fn lemma_nbt_read_is_lawful(s: Seq<u8>, named: bool)
    ensures
        nbt_decoding(s, named) matches Ok((t, n)) ==> t is Compound && lawful(t) && n <= s.len(),
{
    if s.len() > 0 && s[0] == TAG_COMPOUND {
        let m = if named {
            if text_decoding(s.skip(1)) is Ok {
                text_decoding(s.skip(1))->Ok_0.1
            } else {
                0
            }
        } else {
            0
        };
        lemma_value_read_is_lawful(s.skip((1 + m) as int), TAG_COMPOUND);
    }
}

} // verus!
