//! The state kept between polls: one record for each device, filed under the
//! device's name.
//!
//! Each poll builds the whole state anew from what was collected. The state of
//! the poll before is consulted for one thing only, how far the counters have
//! moved since, and is then replaced.

use crate::device::{logical_name, AliasTable};
use crate::partition::{
    views, DeviceCounters, DeviceCountersView, MountUsage, MountUsageView, Partition,
    PartitionView,
};
use crate::filing::{
    as_map, distinct_names, last_named, lemma_as_map_len, lemma_as_map_members,
    lemma_as_map_update, lemma_distinct_last_named, lemma_last_named,
};
use crate::listing::{ascending, lemma_insert_in_order, lemma_listing_unique, listing, lists};
use crate::text::{comes_before, name_before, same_text};
use vstd::prelude::*;

verus! {

/// Why a mount has no record in the new state.
#[derive(Clone, Copy, Debug, PartialEq, Eq, Structural)]
pub enum LookupError {
    /// The path of the mounted device has no final segment to name it by.
    NoDeviceName,
    /// No counters are filed under the device's name.
    NoCounters,
}

/// A mount that was left out of the new state.
pub struct Skipped {
    /// The path of the mounted device.
    pub device: String,
    pub reason: LookupError,
}

impl View for Skipped {
    type V = (Seq<char>, LookupError);

    open spec fn view(&self) -> (Seq<char>, LookupError) {
        (self.device@, self.reason)
    }
}

/// How far a counter has moved since the poll before. A counter that stands
/// lower than before was reset in between: it has moved by nothing.
pub open spec fn delta(current: u64, prior: u64) -> u64 {
    if current >= prior {
        (current - prior) as u64
    } else {
        0
    }
}

/// The first of `counters` filed under `name`.
pub open spec fn first_counters(counters: Seq<DeviceCountersView>, name: Seq<char>) -> Option<
    DeviceCountersView,
>
    decreases counters.len(),
{
    if counters.len() == 0 {
        None
    } else if counters[0].name == name {
        Some(counters[0])
    } else {
        first_counters(counters.drop_first(), name)
    }
}

/// The record for one mount: its device's counters, how far they have moved
/// since the record of the same name in `prior`, and the mount's usage. A
/// device that `prior` does not know has moved by nothing.
pub open spec fn join(
    prior: Map<Seq<char>, PartitionView>,
    aliases: Seq<(Seq<char>, Seq<char>)>,
    counters: Seq<DeviceCountersView>,
    mount: MountUsageView,
) -> Result<PartitionView, LookupError> {
    match logical_name(aliases, mount.device) {
        None => Err(LookupError::NoDeviceName),
        Some(name) => match first_counters(counters, name) {
            None => Err(LookupError::NoCounters),
            Some(found) => Ok(
                PartitionView {
                    name,
                    mountpoint: mount.mountpoint,
                    bytes_read: found.bytes_read,
                    bytes_written: found.bytes_written,
                    bytes_read_recently: if prior.contains_key(name) {
                        delta(found.bytes_read, prior[name].bytes_read)
                    } else {
                        0
                    },
                    bytes_written_recently: if prior.contains_key(name) {
                        delta(found.bytes_written, prior[name].bytes_written)
                    } else {
                        0
                    },
                    used_percent: mount.used_percent,
                    bytes_free: mount.bytes_free,
                },
            ),
        },
    }
}

/// The state after a poll: the records of the mounts that could be joined,
/// each filed under its name. Where two mounts share a device, the later one
/// is kept.
pub open spec fn next_state(
    prior: Map<Seq<char>, PartitionView>,
    aliases: Seq<(Seq<char>, Seq<char>)>,
    counters: Seq<DeviceCountersView>,
    mounts: Seq<MountUsageView>,
) -> Map<Seq<char>, PartitionView>
    decreases mounts.len(),
{
    if mounts.len() == 0 {
        Map::empty()
    } else {
        let rest = next_state(prior, aliases, counters, mounts.drop_last());
        match join(prior, aliases, counters, mounts.last()) {
            Ok(record) => rest.insert(record.name, record),
            Err(_) => rest,
        }
    }
}

/// The mounts that a poll leaves out, in the order in which they were listed,
/// each with the reason.
pub open spec fn left_out(
    prior: Map<Seq<char>, PartitionView>,
    aliases: Seq<(Seq<char>, Seq<char>)>,
    counters: Seq<DeviceCountersView>,
    mounts: Seq<MountUsageView>,
) -> Seq<(Seq<char>, LookupError)>
    decreases mounts.len(),
{
    if mounts.len() == 0 {
        Seq::empty()
    } else {
        let rest = left_out(prior, aliases, counters, mounts.drop_last());
        match join(prior, aliases, counters, mounts.last()) {
            Ok(_) => rest,
            Err(reason) => rest.push((mounts.last().device, reason)),
        }
    }
}

/// Files `record` among `records`, in place of the record of its name if
/// there is one.
fn file_record(records: &mut Vec<Partition>, record: Partition)
    requires
        distinct_names(views(old(records)@)),
    ensures
        distinct_names(views(final(records)@)),
        as_map(views(final(records)@)) == as_map(views(old(records)@)).insert(
            record.name@,
            record@,
        ),
{
    let ghost before = views(records@);
    let mut i: usize = 0;
    while i < records.len()
        invariant
            i <= records.len(),
            *records == *old(records),
            before == views(records@),
            distinct_names(before),
            forall|k: int| 0 <= k < i ==> (#[trigger] records@[k]).name@ != record.name@,
        decreases records.len() - i,
    {
        if records[i].name == record.name {
            proof {
                lemma_as_map_update(before, i as int, record@);
            }
            records[i] = record;
            assert(views(records@) =~= before.update(i as int, record@));
            return ;
        }
        i += 1;
    }
    records.push(record);
    proof {
        let after = views(records@);
        assert(after.drop_last() =~= before);
        assert forall|a: int, b: int| 0 <= a < b < after.len() implies (#[trigger] after[a]).name
            != (#[trigger] after[b]).name by {
            if b < before.len() {
                assert(before[a].name != before[b].name);
            } else {
                assert(records@[a].name@ != record.name@);
            }
        }
    }
}

/// The counters filed under `name`: the first entry of that name.
pub fn find_counters<'a>(counters: &'a Vec<DeviceCounters>, name: &str) -> (found: Option<
    &'a DeviceCounters,
>)
    ensures
        match found {
            Some(entry) => first_counters(views(counters@), name@) == Some(entry@),
            None => first_counters(views(counters@), name@) is None,
        },
{
    let mut i: usize = 0;
    assert(views(counters@).skip(0) =~= views(counters@));
    while i < counters.len()
        invariant
            i <= counters.len(),
            first_counters(views(counters@), name@) == first_counters(
                views(counters@).skip(i as int),
                name@,
            ),
        decreases counters.len() - i,
    {
        assert(views(counters@).skip(i as int).drop_first() =~= views(counters@).skip(i + 1));
        if same_text(counters[i].name.as_str(), name) {
            return Some(&counters[i]);
        }
        i += 1;
    }
    None
}

/// How far a counter has moved since the poll before.
pub fn counter_delta(current: u64, prior: u64) -> (moved: u64)
    ensures
        moved == delta(current, prior),
        current >= prior ==> moved == current - prior,
        current < prior ==> moved == 0,
{
    if current >= prior {
        current - prior
    } else {
        0
    }
}

/// The records of one poll, each filed under its device's name.
pub struct PartitionStore {
    records: Vec<Partition>,
}

impl View for PartitionStore {
    type V = Map<Seq<char>, PartitionView>;

    closed spec fn view(&self) -> Map<Seq<char>, PartitionView> {
        as_map(views(self.records@))
    }
}

impl PartitionStore {
    #[verifier::type_invariant]
    spec fn one_record_per_name(self) -> bool {
        distinct_names(views(self.records@))
    }

    /// The state before the first poll: no records.
    pub fn new() -> (store: PartitionStore)
        ensures
            store@ == Map::<Seq<char>, PartitionView>::empty(),
    {
        let records: Vec<Partition> = Vec::new();
        assert(views(records@) =~= Seq::empty());
        PartitionStore { records }
    }

    /// Files the given records under their names. Where two have the same
    /// name, the later one is kept.
    pub fn from_records(records: &Vec<Partition>) -> (store: PartitionStore)
        ensures
            store@ == as_map(views(records@)),
    {
        let mut filed: Vec<Partition> = Vec::new();
        let mut i: usize = 0;
        assert(views(filed@) =~= Seq::empty());
        assert(views(records@).take(0) =~= Seq::empty());
        while i < records.len()
            invariant
                i <= records.len(),
                distinct_names(views(filed@)),
                as_map(views(filed@)) == as_map(views(records@).take(i as int)),
            decreases records.len() - i,
        {
            assert(views(records@).take(i + 1).drop_last() =~= views(records@).take(i as int));
            file_record(&mut filed, records[i].clone());
            i += 1;
        }
        assert(views(records@).take(i as int) =~= views(records@));
        PartitionStore { records: filed }
    }

    /// The number of records.
    pub fn len(&self) -> (count: usize)
        ensures
            self@.dom().finite(),
            count == self@.len(),
    {
        proof {
            use_type_invariant(self);
            lemma_as_map_len(views(self.records@));
        }
        self.records.len()
    }

    /// The record filed under `name`.
    pub fn get(&self, name: &str) -> (found: Option<&Partition>)
        ensures
            match found {
                Some(record) => self@.contains_key(name@) && self@[name@] == record@,
                None => !self@.contains_key(name@),
            },
    {
        proof {
            use_type_invariant(self);
            lemma_as_map_members(views(self.records@), name@);
            lemma_last_named(views(self.records@), name@);
        }
        let mut i: usize = 0;
        while i < self.records.len()
            invariant
                i <= self.records.len(),
                forall|k: int| 0 <= k < i ==> (#[trigger] views(self.records@)[k]).name != name@,
            decreases self.records.len() - i,
        {
            if same_text(self.records[i].name.as_str(), name) {
                proof {
                    use_type_invariant(self);
                    lemma_as_map_members(views(self.records@), name@);
                    lemma_distinct_last_named(views(self.records@), i as int);
                }
                return Some(&self.records[i]);
            }
            i += 1;
        }
        None
    }

    /// The records in the order of their names.
    pub fn sorted(&self) -> (list: Vec<Partition>)
        ensures
            lists(views(list@), self@),
            views(list@) == listing(self@),
    {
        let mut list: Vec<Partition> = Vec::new();
        let mut i: usize = 0;
        proof {
            use_type_invariant(self);
            assert(views(list@) =~= Seq::empty());
            assert(views(self.records@).take(0) =~= Seq::empty());
        }
        while i < self.records.len()
            invariant
                i <= self.records.len(),
                distinct_names(views(self.records@)),
                ascending(views(list@)),
                as_map(views(list@)) == as_map(views(self.records@).take(i as int)),
            decreases self.records.len() - i,
        {
            let record = self.records[i].clone();
            let mut at: usize = 0;
            while at < list.len() && !comes_before(record.name.as_str(), list[at].name.as_str())
                invariant
                    at <= list.len(),
                    forall|k: int|
                        0 <= k < at ==> !name_before(
                            record.name@,
                            (#[trigger] views(list@)[k]).name,
                        ),
                decreases list.len() - at,
            {
                at += 1;
            }
            proof {
                let seen = views(self.records@).take(i as int);
                assert(views(self.records@).take(i + 1).drop_last() =~= seen);
                lemma_last_named(seen, record.name@);
                lemma_as_map_members(seen, record.name@);
                let k = last_named(seen, record.name@);
                if k >= 0 {
                    assert(views(self.records@)[k].name != views(self.records@)[i as int].name);
                }
                lemma_insert_in_order(views(list@), at as int, record@);
            }
            let ghost before = views(list@);
            list.insert(at, record);
            assert(views(list@) =~= before.insert(at as int, record@));
            i += 1;
        }
        assert(views(self.records@).take(i as int) =~= views(self.records@));
        proof {
            assert(lists(views(list@), self@));
            assert(lists(listing(self@), self@));
            lemma_listing_unique(views(list@), listing(self@));
        }
        list
    }

    /// The record that a poll makes for one mount.
    pub fn join_mount(
        &self,
        aliases: &AliasTable,
        counters: &Vec<DeviceCounters>,
        mount: &MountUsage,
    ) -> (outcome: Result<Partition, LookupError>)
        ensures
            match outcome {
                Ok(record) => join(self@, aliases@, views(counters@), mount@) == Ok::<
                    PartitionView,
                    LookupError,
                >(record@),
                Err(reason) => join(self@, aliases@, views(counters@), mount@) == Err::<
                    PartitionView,
                    LookupError,
                >(reason),
            },
    {
        let name = match aliases.name_of(mount.device.as_str()) {
            Some(name) => name,
            None => {
                return Err(LookupError::NoDeviceName);
            },
        };
        let found = match find_counters(counters, name.as_str()) {
            Some(found) => found,
            None => {
                return Err(LookupError::NoCounters);
            },
        };
        let (bytes_read_recently, bytes_written_recently) = match self.get(name.as_str()) {
            Some(prior) => (
                counter_delta(found.bytes_read, prior.bytes_read),
                counter_delta(found.bytes_written, prior.bytes_written),
            ),
            None => (0, 0),
        };
        Ok(
            Partition {
                name,
                mountpoint: mount.mountpoint.clone(),
                bytes_read: found.bytes_read,
                bytes_written: found.bytes_written,
                bytes_read_recently,
                bytes_written_recently,
                used_percent: mount.used_percent,
                bytes_free: mount.bytes_free,
            },
        )
    }

    /// One poll: the state that follows `self`, built from the counters and
    /// the usage that were collected, and the mounts that had to be left out.
    pub fn update(
        &self,
        aliases: &AliasTable,
        counters: &Vec<DeviceCounters>,
        usage: &Vec<MountUsage>,
    ) -> (outcome: (PartitionStore, Vec<Skipped>))
        ensures
            outcome.0@ == next_state(self@, aliases@, views(counters@), views(usage@)),
            views(outcome.1@) == left_out(self@, aliases@, views(counters@), views(usage@)),
    {
        let mut records: Vec<Partition> = Vec::new();
        let mut skipped: Vec<Skipped> = Vec::new();
        let mut i: usize = 0;
        assert(views(records@) =~= Seq::empty());
        assert(views(skipped@) =~= Seq::empty());
        assert(views(usage@).take(0) =~= Seq::empty());
        while i < usage.len()
            invariant
                i <= usage.len(),
                distinct_names(views(records@)),
                as_map(views(records@)) == next_state(
                    self@,
                    aliases@,
                    views(counters@),
                    views(usage@).take(i as int),
                ),
                views(skipped@) == left_out(
                    self@,
                    aliases@,
                    views(counters@),
                    views(usage@).take(i as int),
                ),
            decreases usage.len() - i,
        {
            assert(views(usage@).take(i + 1).drop_last() =~= views(usage@).take(i as int));
            assert(views(usage@).take(i + 1).last() == usage@[i as int]@);
            match self.join_mount(aliases, counters, &usage[i]) {
                Ok(record) => {
                    file_record(&mut records, record);
                },
                Err(reason) => {
                    let ghost before = views(skipped@);
                    skipped.push(Skipped { device: usage[i].device.clone(), reason });
                    assert(views(skipped@) =~= before.push((usage@[i as int].device@, reason)));
                },
            }
            i += 1;
        }
        assert(views(usage@).take(i as int) =~= views(usage@));
        (PartitionStore { records }, skipped)
    }
}

} // verus!
