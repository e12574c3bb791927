//! The records that the panel works with: what the operating system reports
//! of a device and of a mount, and the joined snapshot kept for each device.

use vstd::prelude::*;

verus! {

/// The cumulative I/O counters of one block device.
pub struct DeviceCounters {
    /// The name under which the device is counted.
    pub name: String,
    pub bytes_read: u64,
    pub bytes_written: u64,
}

/// The counters of a device as the contracts see them.
pub struct DeviceCountersView {
    pub name: Seq<char>,
    pub bytes_read: u64,
    pub bytes_written: u64,
}

impl View for DeviceCounters {
    type V = DeviceCountersView;

    open spec fn view(&self) -> DeviceCountersView {
        DeviceCountersView {
            name: self.name@,
            bytes_read: self.bytes_read,
            bytes_written: self.bytes_written,
        }
    }
}

/// How full a mounted filesystem is.
#[derive(Clone, Copy, Debug, PartialEq, Eq, Structural)]
pub struct UsageFigures {
    /// The used share of the capacity, in percent.
    pub used_percent: u8,
    pub bytes_free: u64,
}

/// One mounted physical partition as the operating system listed it,
/// together with the answer to the usage query for its mount point: the
/// figures, or nothing where the query failed.
pub struct MountReading {
    /// The path of the device that is mounted.
    pub device: String,
    pub mountpoint: String,
    pub usage: Option<UsageFigures>,
}

/// A reading as the contracts see it.
pub struct MountReadingView {
    pub device: Seq<char>,
    pub mountpoint: Seq<char>,
    pub usage: Option<UsageFigures>,
}

impl View for MountReading {
    type V = MountReadingView;

    open spec fn view(&self) -> MountReadingView {
        MountReadingView { device: self.device@, mountpoint: self.mountpoint@, usage: self.usage }
    }
}

/// One mounted physical partition whose usage is known.
pub struct MountUsage {
    /// The path of the device that is mounted.
    pub device: String,
    pub mountpoint: String,
    /// The used share of the capacity, in percent.
    pub used_percent: u8,
    pub bytes_free: u64,
}

/// A mount with its usage as the contracts see it.
pub struct MountUsageView {
    pub device: Seq<char>,
    pub mountpoint: Seq<char>,
    pub used_percent: u8,
    pub bytes_free: u64,
}

impl View for MountUsage {
    type V = MountUsageView;

    open spec fn view(&self) -> MountUsageView {
        MountUsageView {
            device: self.device@,
            mountpoint: self.mountpoint@,
            used_percent: self.used_percent,
            bytes_free: self.bytes_free,
        }
    }
}

/// The snapshot of one block device at the latest poll: its counters joined
/// with the usage of its mount.
#[derive(Debug)]
pub struct Partition {
    /// The name that joins counters and usage.
    pub name: String,
    pub mountpoint: String,
    /// The counters as the operating system reported them at this poll.
    pub bytes_read: u64,
    pub bytes_written: u64,
    /// How far each counter has moved since the poll before.
    pub bytes_read_recently: u64,
    pub bytes_written_recently: u64,
    /// The used share of the capacity, in percent.
    pub used_percent: u8,
    pub bytes_free: u64,
}

/// A record as the contracts see it.
pub struct PartitionView {
    pub name: Seq<char>,
    pub mountpoint: Seq<char>,
    pub bytes_read: u64,
    pub bytes_written: u64,
    pub bytes_read_recently: u64,
    pub bytes_written_recently: u64,
    pub used_percent: u8,
    pub bytes_free: u64,
}

impl View for Partition {
    type V = PartitionView;

    open spec fn view(&self) -> PartitionView {
        PartitionView {
            name: self.name@,
            mountpoint: self.mountpoint@,
            bytes_read: self.bytes_read,
            bytes_written: self.bytes_written,
            bytes_read_recently: self.bytes_read_recently,
            bytes_written_recently: self.bytes_written_recently,
            used_percent: self.used_percent,
            bytes_free: self.bytes_free,
        }
    }
}

impl Clone for Partition {
    fn clone(&self) -> (copy: Partition)
        ensures
            copy == *self,
    {
        Partition {
            name: self.name.clone(),
            mountpoint: self.mountpoint.clone(),
            bytes_read: self.bytes_read,
            bytes_written: self.bytes_written,
            bytes_read_recently: self.bytes_read_recently,
            bytes_written_recently: self.bytes_written_recently,
            used_percent: self.used_percent,
            bytes_free: self.bytes_free,
        }
    }
}

/// The views of a list of records, in the same order.
pub open spec fn views<T: View>(items: Seq<T>) -> Seq<T::V> {
    Seq::new(items.len(), |i: int| items[i]@)
}

} // verus!
