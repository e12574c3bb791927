//! What one round of queries to the operating system brought back.
//!
//! The queries themselves are made by the caller. A round fails as a whole
//! only when the counters or the list of mounts could not be had at all; a
//! usage query that failed for one mount sets that mount aside and leaves the
//! others as they are.

use crate::partition::{
    views, DeviceCounters, MountReading, MountReadingView, MountUsage, MountUsageView,
};
use crate::text::texts;
use vstd::prelude::*;

verus! {

/// A query without which there is nothing to show.
#[derive(Clone, Copy, Debug, PartialEq, Eq, Structural)]
pub enum CollectionError {
    /// The per-device I/O counters could not be read.
    CountersUnavailable,
    /// The mounted partitions could not be listed.
    MountsUnavailable,
}

/// The outcome of a round of queries that did not fail as a whole.
pub struct Collected {
    pub counters: Vec<DeviceCounters>,
    /// The mounts whose usage is known, in the order in which they were listed.
    pub usage: Vec<MountUsage>,
    /// The mount points whose usage query failed, in the same order.
    pub degraded: Vec<String>,
}

/// The mounts among `readings` whose usage is known.
pub open spec fn readable(readings: Seq<MountReadingView>) -> Seq<MountUsageView>
    decreases readings.len(),
{
    if readings.len() == 0 {
        Seq::empty()
    } else {
        let last = readings.last();
        let rest = readable(readings.drop_last());
        match last.usage {
            Some(figures) => rest.push(
                MountUsageView {
                    device: last.device,
                    mountpoint: last.mountpoint,
                    used_percent: figures.used_percent,
                    bytes_free: figures.bytes_free,
                },
            ),
            None => rest,
        }
    }
}

/// The mount points among `readings` whose usage query failed.
pub open spec fn degraded(readings: Seq<MountReadingView>) -> Seq<Seq<char>>
    decreases readings.len(),
{
    if readings.len() == 0 {
        Seq::empty()
    } else {
        let last = readings.last();
        let rest = degraded(readings.drop_last());
        match last.usage {
            Some(_) => rest,
            None => rest.push(last.mountpoint),
        }
    }
}

/// Every mount is in exactly one of the two lists.
pub proof fn law_every_mount_is_accounted_for(readings: Seq<MountReadingView>)
    ensures
        readable(readings).len() + degraded(readings).len() == readings.len(),
    decreases readings.len(),
{
    if readings.len() > 0 {
        law_every_mount_is_accounted_for(readings.drop_last());
    }
}

/// A mount whose usage is known is among the readable ones, whatever became
/// of the queries for the other mounts.
pub proof fn law_readable_mount_is_kept(readings: Seq<MountReadingView>, i: int)
    requires
        0 <= i < readings.len(),
        readings[i].usage is Some,
    ensures
        exists|k: int|
            0 <= k < readable(readings).len() && (#[trigger] readable(readings)[k]).device
                == readings[i].device && readable(readings)[k].mountpoint
                == readings[i].mountpoint && readable(readings)[k].used_percent
                == readings[i].usage->0.used_percent && readable(readings)[k].bytes_free
                == readings[i].usage->0.bytes_free,
    decreases readings.len(),
{
    let rest = readings.drop_last();
    if i == readings.len() - 1 {
        let k = readable(rest).len() as int;
        assert(readable(readings)[k].device == readings[i].device);
    } else {
        law_readable_mount_is_kept(rest, i);
        let k = choose|k: int|
            0 <= k < readable(rest).len() && (#[trigger] readable(rest)[k]).device
                == rest[i].device && readable(rest)[k].mountpoint == rest[i].mountpoint
                && readable(rest)[k].used_percent == rest[i].usage->0.used_percent
                && readable(rest)[k].bytes_free == rest[i].usage->0.bytes_free;
        assert(readable(readings)[k] == readable(rest)[k]);
    }
}

/// Sorts what a round of queries brought back: `None` stands for a query that
/// could not be completed.
pub fn collect(counters: Option<Vec<DeviceCounters>>, mounts: Option<Vec<MountReading>>) -> (outcome:
    Result<Collected, CollectionError>)
    ensures
        counters is None ==> outcome == Err::<Collected, _>(CollectionError::CountersUnavailable),
        counters is Some && mounts is None ==> outcome == Err::<Collected, _>(
            CollectionError::MountsUnavailable,
        ),
        counters is Some && mounts is Some ==> outcome is Ok && outcome->Ok_0.counters
            == counters->0 && views(outcome->Ok_0.usage@) == readable(views(mounts->0@)) && texts(
            outcome->Ok_0.degraded@,
        ) == degraded(views(mounts->0@)),
{
    let counters = match counters {
        Some(counters) => counters,
        None => {
            return Err(CollectionError::CountersUnavailable);
        },
    };
    let mounts = match mounts {
        Some(mounts) => mounts,
        None => {
            return Err(CollectionError::MountsUnavailable);
        },
    };
    let mut usage: Vec<MountUsage> = Vec::new();
    let mut failed: Vec<String> = Vec::new();
    let mut i: usize = 0;
    assert(views(mounts@).take(0) =~= Seq::empty());
    assert(views(usage@) =~= Seq::empty());
    assert(texts(failed@) =~= Seq::empty());
    while i < mounts.len()
        invariant
            i <= mounts.len(),
            views(usage@) == readable(views(mounts@).take(i as int)),
            texts(failed@) == degraded(views(mounts@).take(i as int)),
        decreases mounts.len() - i,
    {
        let ghost seen = views(mounts@).take(i as int);
        let ghost next = views(mounts@).take(i + 1);
        assert(next.drop_last() =~= seen);
        assert(next.last() == mounts@[i as int]@);
        let reading = &mounts[i];
        match reading.usage {
            Some(figures) => {
                let ghost before = views(usage@);
                usage.push(
                    MountUsage {
                        device: reading.device.clone(),
                        mountpoint: reading.mountpoint.clone(),
                        used_percent: figures.used_percent,
                        bytes_free: figures.bytes_free,
                    },
                );
                assert(views(usage@) =~= before.push(usage@.last()@));
            },
            None => {
                let ghost before = texts(failed@);
                failed.push(reading.mountpoint.clone());
                assert(texts(failed@) =~= before.push(reading.mountpoint@));
            },
        }
        i += 1;
    }
    assert(views(mounts@).take(i as int) =~= views(mounts@));
    Ok(Collected { counters, usage, degraded: failed })
}

} // verus!
