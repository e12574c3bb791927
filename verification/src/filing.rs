//! Records filed under their names: how a list of records, in whatever
//! order it came, stands for a state.

use crate::partition::PartitionView;
use vstd::prelude::*;

verus! {

/// No two of the records have the same name.
pub open spec fn distinct_names(records: Seq<PartitionView>) -> bool {
    forall|i: int, j: int|
        0 <= i < j < records.len() ==> (#[trigger] records[i]).name != (#[trigger] records[j]).name
}

/// The records filed under their names. Where two have the same name, the
/// later one is kept.
pub open spec fn as_map(records: Seq<PartitionView>) -> Map<Seq<char>, PartitionView>
    decreases records.len(),
{
    if records.len() == 0 {
        Map::empty()
    } else {
        as_map(records.drop_last()).insert(records.last().name, records.last())
    }
}

/// The position of the last record named `name`, or -1 if there is none.
pub open spec fn last_named(records: Seq<PartitionView>, name: Seq<char>) -> int
    decreases records.len(),
{
    if records.len() == 0 {
        -1
    } else if records.last().name == name {
        records.len() - 1
    } else {
        last_named(records.drop_last(), name)
    }
}

/// `last_named` finds a record of that name, and none of that name follows it.
pub proof fn lemma_last_named(records: Seq<PartitionView>, name: Seq<char>)
    ensures
        -1 <= last_named(records, name) < records.len(),
        last_named(records, name) >= 0 ==> records[last_named(records, name)].name == name,
        forall|i: int|
            last_named(records, name) < i < records.len() ==> (#[trigger] records[i]).name != name,
    decreases records.len(),
{
    if records.len() > 0 && records.last().name != name {
        let rest = records.drop_last();
        lemma_last_named(rest, name);
        assert forall|i: int| last_named(records, name) < i < records.len() implies (
        #[trigger] records[i]).name != name by {
            if i < rest.len() {
                assert(rest[i].name != name);
            }
        }
    }
}

/// A name is filed exactly if some record has it, and what is filed under it
/// is the last record that has it.
pub proof fn lemma_as_map_members(records: Seq<PartitionView>, name: Seq<char>)
    ensures
        as_map(records).contains_key(name) <==> last_named(records, name) >= 0,
        as_map(records).contains_key(name) ==> as_map(records)[name] == records[last_named(
            records,
            name,
        )],
    decreases records.len(),
{
    if records.len() > 0 {
        lemma_as_map_members(records.drop_last(), name);
        lemma_last_named(records.drop_last(), name);
    }
}

/// Among records with distinct names, each is the last of its name.
pub proof fn lemma_distinct_last_named(records: Seq<PartitionView>, i: int)
    requires
        distinct_names(records),
        0 <= i < records.len(),
    ensures
        last_named(records, records[i].name) == i,
{
    lemma_last_named(records, records[i].name);
    let k = last_named(records, records[i].name);
    if k < i {
        assert(records[i].name != records[i].name);
    } else if k > i {
        assert(records[i].name != records[k].name);
    }
}

/// Records with distinct names are filed one to a name.
pub proof fn lemma_as_map_len(records: Seq<PartitionView>)
    requires
        distinct_names(records),
    ensures
        as_map(records).dom().finite(),
        as_map(records).len() == records.len(),
    decreases records.len(),
{
    if records.len() > 0 {
        let rest = records.drop_last();
        assert(distinct_names(rest)) by {
            assert forall|i: int, j: int| 0 <= i < j < rest.len() implies (#[trigger] rest[i]).name
                != (#[trigger] rest[j]).name by {
                assert(records[i].name != records[j].name);
            }
        }
        lemma_as_map_len(rest);
        lemma_as_map_members(rest, records.last().name);
        lemma_last_named(rest, records.last().name);
        let k = last_named(rest, records.last().name);
        if k >= 0 {
            assert(records[k].name != records[records.len() - 1].name);
        }
    }
}

/// Two lists of records with distinct names that hold the same records file
/// them alike, whatever their order.
pub proof fn lemma_same_members(a: Seq<PartitionView>, b: Seq<PartitionView>)
    requires
        distinct_names(a),
        distinct_names(b),
        forall|i: int| 0 <= i < a.len() ==> b.contains(#[trigger] a[i]),
        forall|j: int| 0 <= j < b.len() ==> a.contains(#[trigger] b[j]),
    ensures
        as_map(a) == as_map(b),
{
    assert forall|name: Seq<char>| as_map(a).dom().contains(name) == as_map(b).dom().contains(
        name,
    ) by {
        if as_map(a).contains_key(name) {
            lemma_members_carry_over(a, b, name);
        }
        if as_map(b).contains_key(name) {
            lemma_members_carry_over(b, a, name);
        }
    }
    assert forall|name: Seq<char>| as_map(a).dom().contains(name) implies as_map(a)[name]
        == as_map(b)[name] by {
        lemma_members_carry_over(a, b, name);
    }
    assert(as_map(a) =~= as_map(b));
}

proof fn lemma_members_carry_over(a: Seq<PartitionView>, b: Seq<PartitionView>, name: Seq<char>)
    requires
        distinct_names(b),
        forall|i: int| 0 <= i < a.len() ==> b.contains(#[trigger] a[i]),
        as_map(a).contains_key(name),
    ensures
        as_map(b).contains_key(name),
        as_map(b)[name] == as_map(a)[name],
{
    lemma_as_map_members(a, name);
    lemma_last_named(a, name);
    let i = last_named(a, name);
    assert(b.contains(a[i]));
    let j = choose|j: int| 0 <= j < b.len() && b[j] == a[i];
    lemma_distinct_last_named(b, j);
    lemma_as_map_members(b, name);
}

/// Replacing a record by one of the same name files the new one in its place.
pub proof fn lemma_as_map_update(records: Seq<PartitionView>, i: int, record: PartitionView)
    requires
        distinct_names(records),
        0 <= i < records.len(),
        records[i].name == record.name,
    ensures
        distinct_names(records.update(i, record)),
        as_map(records.update(i, record)) == as_map(records).insert(record.name, record),
    decreases records.len(),
{
    let updated = records.update(i, record);
    let rest = records.drop_last();
    assert(distinct_names(updated)) by {
        assert forall|a: int, b: int| 0 <= a < b < updated.len() implies (#[trigger] updated[a]).name
            != (#[trigger] updated[b]).name by {
            assert(records[a].name != records[b].name);
        }
    }
    if i == records.len() - 1 {
        assert(updated.drop_last() =~= rest);
        assert(as_map(updated) =~= as_map(records).insert(record.name, record));
    } else {
        assert(distinct_names(rest)) by {
            assert forall|a: int, b: int| 0 <= a < b < rest.len() implies (#[trigger] rest[a]).name
                != (#[trigger] rest[b]).name by {
                assert(records[a].name != records[b].name);
            }
        }
        lemma_as_map_update(rest, i, record);
        assert(updated.drop_last() =~= rest.update(i, record));
        assert(records[i].name != records[records.len() - 1].name);
        assert(as_map(updated) =~= as_map(records).insert(record.name, record));
    }
}

/// Without its last record, a list of records with distinct names files what
/// it filed before but for the last record's name.
pub proof fn lemma_as_map_drop_last(records: Seq<PartitionView>)
    requires
        distinct_names(records),
        records.len() > 0,
    ensures
        distinct_names(records.drop_last()),
        as_map(records.drop_last()) == as_map(records).remove(records.last().name),
{
    let rest = records.drop_last();
    let name = records.last().name;
    assert forall|i: int, j: int| 0 <= i < j < rest.len() implies (#[trigger] rest[i]).name != (
    #[trigger] rest[j]).name by {
        assert(records[i].name != records[j].name);
    }
    lemma_as_map_members(rest, name);
    lemma_last_named(rest, name);
    let k = last_named(rest, name);
    if k >= 0 {
        assert(records[k].name != records[records.len() - 1].name);
    }
    assert(as_map(rest) =~= as_map(records).remove(name));
}

} // verus!
