//! What holds of every poll and of every listing, proved from the definitions
//! that the contracts use.

use crate::device::logical_name;
use crate::interval::UpdateInterval;
use crate::partition::{DeviceCountersView, MountUsageView, PartitionView};
use crate::render::{row_cells, table_rows, ByteUnits, COLUMNS};
use crate::filing::{as_map, distinct_names, lemma_same_members};
use crate::listing::{lemma_listing_exists, listing};
use crate::store::{delta, first_counters, join, next_state, LookupError};
use crate::text::name_before;
use vstd::prelude::*;

verus! {

/// The position of the last mount whose record is filed under `name`, or -1
/// if no mount has such a record.
pub open spec fn last_joined(
    prior: Map<Seq<char>, PartitionView>,
    aliases: Seq<(Seq<char>, Seq<char>)>,
    counters: Seq<DeviceCountersView>,
    mounts: Seq<MountUsageView>,
    name: Seq<char>,
) -> int
    decreases mounts.len(),
{
    if mounts.len() == 0 {
        -1
    } else {
        match join(prior, aliases, counters, mounts.last()) {
            Ok(record) if record.name == name => mounts.len() - 1,
            _ => last_joined(prior, aliases, counters, mounts.drop_last(), name),
        }
    }
}

/// A name is filed in the new state exactly if some mount has a record of
/// that name, and what is filed is the record of the last such mount.
pub proof fn lemma_next_state_members(
    prior: Map<Seq<char>, PartitionView>,
    aliases: Seq<(Seq<char>, Seq<char>)>,
    counters: Seq<DeviceCountersView>,
    mounts: Seq<MountUsageView>,
    name: Seq<char>,
)
    ensures
        -1 <= last_joined(prior, aliases, counters, mounts, name) < mounts.len(),
        next_state(prior, aliases, counters, mounts).contains_key(name) <==> last_joined(
            prior,
            aliases,
            counters,
            mounts,
            name,
        ) >= 0,
        next_state(prior, aliases, counters, mounts).contains_key(name) ==> join(
            prior,
            aliases,
            counters,
            mounts[last_joined(prior, aliases, counters, mounts, name)],
        ) == Ok::<PartitionView, LookupError>(
            next_state(prior, aliases, counters, mounts)[name],
        ) && next_state(prior, aliases, counters, mounts)[name].name == name,
    decreases mounts.len(),
{
    if mounts.len() > 0 {
        lemma_next_state_members(prior, aliases, counters, mounts.drop_last(), name);
    }
}

/// A device that the state before did not know has moved by nothing in the
/// state after.
pub proof fn lemma_new_device_has_moved_by_nothing(
    prior: Map<Seq<char>, PartitionView>,
    aliases: Seq<(Seq<char>, Seq<char>)>,
    counters: Seq<DeviceCountersView>,
    mounts: Seq<MountUsageView>,
    name: Seq<char>,
)
    requires
        !prior.contains_key(name),
        next_state(prior, aliases, counters, mounts).contains_key(name),
    ensures
        next_state(prior, aliases, counters, mounts)[name].bytes_read_recently == 0,
        next_state(prior, aliases, counters, mounts)[name].bytes_written_recently == 0,
{
    lemma_next_state_members(prior, aliases, counters, mounts, name);
}

/// After the first poll, which starts from the empty state, every record
/// says that nothing was read and nothing was written recently.
pub proof fn law_first_poll_has_moved_by_nothing(
    aliases: Seq<(Seq<char>, Seq<char>)>,
    counters: Seq<DeviceCountersView>,
    mounts: Seq<MountUsageView>,
    name: Seq<char>,
)
    requires
        next_state(Map::empty(), aliases, counters, mounts).contains_key(name),
    ensures
        next_state(Map::empty(), aliases, counters, mounts)[name].bytes_read_recently == 0,
        next_state(Map::empty(), aliases, counters, mounts)[name].bytes_written_recently == 0,
{
    lemma_new_device_has_moved_by_nothing(Map::empty(), aliases, counters, mounts, name);
}

/// A counter that stood at `prior` and stands at `current` has moved by
/// their difference; one that stands lower than before, as after a reset, has
/// moved by nothing. The result is never negative and never wraps.
pub proof fn law_delta(current: u64, prior: u64)
    ensures
        current >= prior ==> delta(current, prior) == current - prior,
        current < prior ==> delta(current, prior) == 0,
        0 <= delta(current, prior) <= current,
{
}

/// For a device that the state before knew, the record of the state after
/// holds how far each counter has moved between the two: the written bytes
/// by the write counter, the read bytes by the read counter.
pub proof fn law_poll_measures_movement(
    prior: Map<Seq<char>, PartitionView>,
    aliases: Seq<(Seq<char>, Seq<char>)>,
    counters: Seq<DeviceCountersView>,
    mounts: Seq<MountUsageView>,
    name: Seq<char>,
)
    requires
        prior.contains_key(name),
        next_state(prior, aliases, counters, mounts).contains_key(name),
    ensures
        ({
            let after = next_state(prior, aliases, counters, mounts)[name];
            let before = prior[name];
            &&& first_counters(counters, name) is Some
            &&& after.bytes_read == first_counters(counters, name)->0.bytes_read
            &&& after.bytes_written == first_counters(counters, name)->0.bytes_written
            &&& after.bytes_read_recently == delta(after.bytes_read, before.bytes_read)
            &&& after.bytes_written_recently == delta(after.bytes_written, before.bytes_written)
        }),
{
    lemma_next_state_members(prior, aliases, counters, mounts, name);
}

/// A mounted device without counters is left out of the new state, and the
/// poll goes on: every mount that has a record is filed.
pub proof fn law_missing_counters_leave_out_that_device_only(
    prior: Map<Seq<char>, PartitionView>,
    aliases: Seq<(Seq<char>, Seq<char>)>,
    counters: Seq<DeviceCountersView>,
    mounts: Seq<MountUsageView>,
    missing: int,
    other: int,
)
    requires
        0 <= missing < mounts.len(),
        0 <= other < mounts.len(),
        logical_name(aliases, mounts[missing].device) is Some,
        first_counters(counters, logical_name(aliases, mounts[missing].device)->0) is None,
        join(prior, aliases, counters, mounts[other]) is Ok,
    ensures
        !next_state(prior, aliases, counters, mounts).contains_key(
            logical_name(aliases, mounts[missing].device)->0,
        ),
        next_state(prior, aliases, counters, mounts).contains_key(
            join(prior, aliases, counters, mounts[other])->Ok_0.name,
        ),
{
    let name = logical_name(aliases, mounts[missing].device)->0;
    lemma_next_state_members(prior, aliases, counters, mounts, name);
    let found = join(prior, aliases, counters, mounts[other])->Ok_0.name;
    lemma_joined_mount_is_filed(prior, aliases, counters, mounts, other);
}

/// A mount that has a record is filed under the record's name.
pub proof fn lemma_joined_mount_is_filed(
    prior: Map<Seq<char>, PartitionView>,
    aliases: Seq<(Seq<char>, Seq<char>)>,
    counters: Seq<DeviceCountersView>,
    mounts: Seq<MountUsageView>,
    i: int,
)
    requires
        0 <= i < mounts.len(),
        join(prior, aliases, counters, mounts[i]) is Ok,
    ensures
        next_state(prior, aliases, counters, mounts).contains_key(
            join(prior, aliases, counters, mounts[i])->Ok_0.name,
        ),
    decreases mounts.len(),
{
    if i < mounts.len() - 1 {
        lemma_joined_mount_is_filed(prior, aliases, counters, mounts.drop_last(), i);
    }
}

/// The rows of the table stand in the strict order of the names, whatever
/// the order in which the records came: the first cell of each row is a name
/// that comes before the first cell of every row below it.
pub proof fn law_rows_stand_in_name_order(
    records: Seq<PartitionView>,
    interval: UpdateInterval,
    units: ByteUnits,
    columns: nat,
    upper: int,
    lower: int,
)
    requires
        1 <= columns <= COLUMNS,
        0 <= upper < lower < table_rows(listing(as_map(records)), interval, units, columns).len(),
    ensures
        name_before(
            table_rows(listing(as_map(records)), interval, units, columns)[upper][0],
            table_rows(listing(as_map(records)), interval, units, columns)[lower][0],
        ),
{
    lemma_listing_exists(records);
    let list = listing(as_map(records));
    assert(name_before(list[upper].name, list[lower].name));
    assert(row_cells(list[upper], interval, units).len() == 6);
    assert(row_cells(list[lower], interval, units).len() == 6);
    assert(row_cells(list[upper], interval, units).take(columns as int)[0] == list[upper].name);
    assert(row_cells(list[lower], interval, units).take(columns as int)[0] == list[lower].name);
}

/// Two lists of the same records, in whatever order, give the same rows.
pub proof fn law_rows_do_not_depend_on_arrival(
    a: Seq<PartitionView>,
    b: Seq<PartitionView>,
    interval: UpdateInterval,
    units: ByteUnits,
    columns: nat,
)
    requires
        distinct_names(a),
        distinct_names(b),
        forall|i: int| 0 <= i < a.len() ==> b.contains(#[trigger] a[i]),
        forall|j: int| 0 <= j < b.len() ==> a.contains(#[trigger] b[j]),
    ensures
        table_rows(listing(as_map(a)), interval, units, columns) == table_rows(
            listing(as_map(b)),
            interval,
            units,
            columns,
        ),
{
    lemma_same_members(a, b);
}

} // verus!
