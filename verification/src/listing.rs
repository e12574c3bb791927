//! The listing of a state: its records in the order of their names.

use crate::filing::{
    as_map, distinct_names, last_named, lemma_as_map_drop_last, lemma_as_map_len,
    lemma_as_map_members, lemma_as_map_update, lemma_distinct_last_named, lemma_last_named,
    lemma_same_members,
};
use crate::partition::PartitionView;
use crate::text::{
    lemma_name_before_irreflexive, lemma_name_before_total, lemma_name_before_transitive,
    name_before,
};
use vstd::prelude::*;

verus! {

/// The records stand in the order of their names, each name once.
pub open spec fn ascending(records: Seq<PartitionView>) -> bool {
    forall|i: int, j: int|
        0 <= i < j < records.len() ==> name_before(
            (#[trigger] records[i]).name,
            (#[trigger] records[j]).name,
        )
}

/// `list` lists what `state` holds: every record of the state once, in the
/// order of the names.
pub open spec fn lists(list: Seq<PartitionView>, state: Map<Seq<char>, PartitionView>) -> bool {
    ascending(list) && as_map(list) == state
}

/// Records in the order of their names have distinct names.
pub proof fn lemma_ascending_distinct(records: Seq<PartitionView>)
    requires
        ascending(records),
    ensures
        distinct_names(records),
{
    assert forall|i: int, j: int| 0 <= i < j < records.len() implies (#[trigger] records[i]).name
        != (#[trigger] records[j]).name by {
        lemma_name_before_irreflexive(records[i].name);
    }
}

/// A state has one listing only: two lists in the order of the names that
/// file the same records are the same list.
pub proof fn lemma_listing_unique(a: Seq<PartitionView>, b: Seq<PartitionView>)
    requires
        ascending(a),
        ascending(b),
        as_map(a) == as_map(b),
    ensures
        a == b,
    decreases a.len(),
{
    lemma_ascending_distinct(a);
    lemma_ascending_distinct(b);
    lemma_as_map_len(a);
    lemma_as_map_len(b);
    if a.len() > 0 {
        let last_a = a.last();
        let last_b = b.last();
        lemma_distinct_last_named(a, a.len() - 1);
        lemma_distinct_last_named(b, b.len() - 1);
        lemma_as_map_members(a, last_a.name);
        lemma_as_map_members(b, last_a.name);
        lemma_last_named(b, last_a.name);
        lemma_as_map_members(a, last_b.name);
        lemma_as_map_members(b, last_b.name);
        lemma_last_named(a, last_b.name);
        let j = last_named(b, last_a.name);
        let i = last_named(a, last_b.name);
        assert(b[j] == last_a);
        assert(a[i] == last_b);
        if j < b.len() - 1 {
            assert(name_before(b[j].name, b[b.len() - 1].name));
            if i < a.len() - 1 {
                assert(name_before(a[i].name, a[a.len() - 1].name));
                lemma_name_before_transitive(last_a.name, last_b.name, last_a.name);
            }
            lemma_name_before_irreflexive(last_a.name);
        }
        assert(last_a == last_b);
        lemma_as_map_drop_last(a);
        lemma_as_map_drop_last(b);
        assert(ascending(a.drop_last())) by {
            assert forall|x: int, y: int| 0 <= x < y < a.drop_last().len() implies name_before(
                (#[trigger] a.drop_last()[x]).name,
                (#[trigger] a.drop_last()[y]).name,
            ) by {
                assert(name_before(a[x].name, a[y].name));
            }
        }
        assert(ascending(b.drop_last())) by {
            assert forall|x: int, y: int| 0 <= x < y < b.drop_last().len() implies name_before(
                (#[trigger] b.drop_last()[x]).name,
                (#[trigger] b.drop_last()[y]).name,
            ) by {
                assert(name_before(b[x].name, b[y].name));
            }
        }
        lemma_listing_unique(a.drop_last(), b.drop_last());
        assert(a =~= a.drop_last().push(last_a));
        assert(b =~= b.drop_last().push(last_b));
    } else {
        assert(a =~= b);
    }
}

/// The listing of a state: its records in the order of their names.
pub open spec fn listing(state: Map<Seq<char>, PartitionView>) -> Seq<PartitionView> {
    choose|list: Seq<PartitionView>| lists(list, state)
}

/// Putting a record of a new name between those that come before it and
/// those that come after it keeps the order, and files the record with the
/// others.
pub proof fn lemma_insert_in_order(records: Seq<PartitionView>, at: int, record: PartitionView)
    requires
        ascending(records),
        0 <= at <= records.len(),
        !as_map(records).contains_key(record.name),
        forall|k: int| 0 <= k < at ==> !name_before(record.name, (#[trigger] records[k]).name),
        at < records.len() ==> name_before(record.name, records[at].name),
    ensures
        ascending(records.insert(at, record)),
        as_map(records.insert(at, record)) == as_map(records).insert(record.name, record),
{
    let inserted = records.insert(at, record);
    let pushed = records.push(record);
    lemma_ascending_distinct(records);
    assert forall|k: int| 0 <= k < records.len() implies (#[trigger] records[k]).name
        != record.name by {
        lemma_distinct_last_named(records, k);
        lemma_as_map_members(records, records[k].name);
    }
    assert forall|i: int, j: int| 0 <= i < j < inserted.len() implies name_before(
        (#[trigger] inserted[i]).name,
        (#[trigger] inserted[j]).name,
    ) by {
        if j < at {
            assert(name_before(records[i].name, records[j].name));
        } else if j == at {
            assert(!name_before(record.name, records[i].name));
            lemma_name_before_total(record.name, records[i].name);
        } else if i == at {
            if j - 1 > at {
                assert(name_before(records[at].name, records[j - 1].name));
                lemma_name_before_transitive(record.name, records[at].name, records[j - 1].name);
            }
        } else if i < at {
            assert(name_before(records[i].name, records[j - 1].name));
        } else {
            assert(name_before(records[i - 1].name, records[j - 1].name));
        }
    }
    lemma_ascending_distinct(inserted);
    assert(distinct_names(pushed)) by {
        assert forall|i: int, j: int| 0 <= i < j < pushed.len() implies (#[trigger] pushed[i]).name
            != (#[trigger] pushed[j]).name by {
            if j < records.len() {
                assert(records[i].name != records[j].name);
            } else {
                assert(records[i].name != record.name);
            }
        }
    }
    assert forall|i: int| 0 <= i < inserted.len() implies pushed.contains(
        #[trigger] inserted[i],
    ) by {
        if i < at {
            assert(pushed[i] == inserted[i]);
        } else if i == at {
            assert(pushed[records.len() as int] == inserted[i]);
        } else {
            assert(pushed[i - 1] == inserted[i]);
        }
    }
    assert forall|j: int| 0 <= j < pushed.len() implies inserted.contains(#[trigger] pushed[j]) by {
        if j < at {
            assert(inserted[j] == pushed[j]);
        } else if j == records.len() {
            assert(inserted[at] == pushed[j]);
        } else {
            assert(inserted[j + 1] == pushed[j]);
        }
    }
    lemma_same_members(inserted, pushed);
    assert(pushed.drop_last() =~= records);
}

/// Where `name` goes in a list in the order of the names: behind the last
/// record that does not come after it.
pub open spec fn place(list: Seq<PartitionView>, name: Seq<char>) -> int
    decreases list.len(),
{
    if list.len() > 0 && name_before(name, list.last().name) {
        place(list.drop_last(), name)
    } else {
        list.len() as int
    }
}

pub proof fn lemma_place(list: Seq<PartitionView>, name: Seq<char>)
    requires
        ascending(list),
    ensures
        0 <= place(list, name) <= list.len(),
        forall|k: int|
            0 <= k < place(list, name) ==> !name_before(name, (#[trigger] list[k]).name),
        place(list, name) < list.len() ==> name_before(name, list[place(list, name)].name),
    decreases list.len(),
{
    if list.len() > 0 && name_before(name, list.last().name) {
        let rest = list.drop_last();
        assert(ascending(rest)) by {
            assert forall|x: int, y: int| 0 <= x < y < rest.len() implies name_before(
                (#[trigger] rest[x]).name,
                (#[trigger] rest[y]).name,
            ) by {
                assert(name_before(list[x].name, list[y].name));
            }
        }
        lemma_place(rest, name);
        assert forall|k: int| 0 <= k < place(list, name) implies !name_before(
            name,
            (#[trigger] list[k]).name,
        ) by {
            assert(!name_before(name, rest[k].name));
        }
        if place(list, name) < rest.len() {
            assert(list[place(list, name)] == rest[place(rest, name)]);
        }
    } else {
        assert forall|k: int| 0 <= k < list.len() implies !name_before(
            name,
            (#[trigger] list[k]).name,
        ) by {
            if k < list.len() - 1 && name_before(name, list[k].name) {
                assert(name_before(list[k].name, list[list.len() - 1].name));
                lemma_name_before_transitive(name, list[k].name, list.last().name);
            }
        }
    }
}

/// Whatever the order in which records come, the state that files them has
/// a listing.
pub proof fn lemma_listing_exists(records: Seq<PartitionView>)
    ensures
        lists(listing(as_map(records)), as_map(records)),
    decreases records.len(),
{
    if records.len() == 0 {
        assert(lists(Seq::<PartitionView>::empty(), as_map(records)));
    } else {
        let rest = records.drop_last();
        let record = records.last();
        lemma_listing_exists(rest);
        let list = listing(as_map(rest));
        lemma_ascending_distinct(list);
        lemma_as_map_members(list, record.name);
        lemma_last_named(list, record.name);
        let at = last_named(list, record.name);
        if at >= 0 {
            lemma_as_map_update(list, at, record);
            let replaced = list.update(at, record);
            assert forall|x: int, y: int| 0 <= x < y < replaced.len() implies name_before(
                (#[trigger] replaced[x]).name,
                (#[trigger] replaced[y]).name,
            ) by {
                assert(name_before(list[x].name, list[y].name));
            }
            assert(lists(replaced, as_map(records)));
        } else {
            lemma_place(list, record.name);
            lemma_insert_in_order(list, place(list, record.name), record);
            assert(lists(list.insert(place(list, record.name), record), as_map(records)));
        }
    }
}

} // verus!
