use disk_widget::interval::UpdateInterval;
use disk_widget::partition::Partition;
use disk_widget::render::{
    decimal_text, layout, percent_cell, row, size_cell, visible_columns, ByteUnits, COLUMNS,
    COLUMN_SPACING,
};
use disk_widget::store::PartitionStore;

fn record(name: &str, mountpoint: &str, used_percent: u8) -> Partition {
    Partition {
        name: name.to_string(),
        mountpoint: mountpoint.to_string(),
        bytes_read: 0,
        bytes_written: 0,
        bytes_read_recently: 0,
        bytes_written_recently: 0,
        used_percent,
        bytes_free: 0,
    }
}

fn one_second() -> UpdateInterval {
    UpdateInterval { numer: 1, denom: 1 }
}

#[test]
fn the_used_share_is_right_aligned_in_three_places() {
    assert_eq!(percent_cell(0), "  0%");
    assert_eq!(percent_cell(7), "  7%");
    assert_eq!(percent_cell(9), "  9%");
    assert_eq!(percent_cell(10), " 10%");
    assert_eq!(percent_cell(42), " 42%");
    assert_eq!(percent_cell(99), " 99%");
    assert_eq!(percent_cell(100), "100%");
    assert_eq!(percent_cell(255), "255%");
    for percent in 0..=255u8 {
        assert_eq!(percent_cell(percent), format!("{:3}%", percent));
    }
}

#[test]
fn decimal_text_writes_a_number() {
    assert_eq!(decimal_text(0), "0");
    assert_eq!(decimal_text(9), "9");
    assert_eq!(decimal_text(10), "10");
    assert_eq!(decimal_text(12345), "12345");
    assert_eq!(decimal_text(1_000_000_007), "1000000007");
    assert_eq!(decimal_text(u64::MAX as u128), "18446744073709551615");
    assert_eq!(decimal_text(u128::MAX), "340282366920938463463374607431768211455");
}

#[test]
fn raw_bytes_are_the_plain_number() {
    assert_eq!(size_cell(ByteUnits::RawBytes, 0), "0");
    assert_eq!(size_cell(ByteUnits::RawBytes, 1023), "1023");
    assert_eq!(size_cell(ByteUnits::RawBytes, 1024), "1024");
    assert_eq!(size_cell(ByteUnits::RawBytes, 1 << 40), "1099511627776");
}

#[test]
fn scaled_bytes_are_in_the_largest_unit_they_fill() {
    assert_eq!(size_cell(ByteUnits::HumanScaled, 0), "0B");
    assert_eq!(size_cell(ByteUnits::HumanScaled, 1), "1B");
    assert_eq!(size_cell(ByteUnits::HumanScaled, 1023), "1023B");
    assert_eq!(size_cell(ByteUnits::HumanScaled, 1024), "1K");
    assert_eq!(size_cell(ByteUnits::HumanScaled, 1536), "1K");
    assert_eq!(size_cell(ByteUnits::HumanScaled, 2047), "1K");
    assert_eq!(size_cell(ByteUnits::HumanScaled, 2048), "2K");
    assert_eq!(size_cell(ByteUnits::HumanScaled, (1 << 20) - 1), "1023K");
    assert_eq!(size_cell(ByteUnits::HumanScaled, 1 << 20), "1M");
    assert_eq!(size_cell(ByteUnits::HumanScaled, 5 * (1 << 30) + 17), "5G");
    assert_eq!(size_cell(ByteUnits::HumanScaled, 1 << 40), "1T");
    assert_eq!(size_cell(ByteUnits::HumanScaled, 1 << 50), "1P");
    assert_eq!(size_cell(ByteUnits::HumanScaled, 1 << 60), "1E");
    assert_eq!(size_cell(ByteUnits::HumanScaled, u64::MAX as u128), "15E");
    assert_eq!(size_cell(ByteUnits::HumanScaled, 1 << 70), "1Z");
    assert_eq!(size_cell(ByteUnits::HumanScaled, 1 << 80), "1Y");
    assert_eq!(size_cell(ByteUnits::HumanScaled, 1 << 90), "1R");
    assert_eq!(size_cell(ByteUnits::HumanScaled, 1 << 100), "1Q");
    assert_eq!(size_cell(ByteUnits::HumanScaled, 1 << 110), "1024Q");
    assert_eq!(size_cell(ByteUnits::HumanScaled, u128::MAX), "268435455Q");
}

#[test]
fn a_rate_is_the_movement_divided_by_the_interval() {
    assert_eq!(one_second().per_second(500), 500);
    assert_eq!(one_second().per_second(0), 0);
    assert_eq!(one_second().per_second(u64::MAX), u64::MAX as u128);
    let half_second = UpdateInterval { numer: 1, denom: 2 };
    assert_eq!(half_second.per_second(500), 1000);
    let two_seconds = UpdateInterval { numer: 2, denom: 1 };
    assert_eq!(two_seconds.per_second(501), 250);
    assert_eq!(two_seconds.per_second(1), 0);
    let three_halves = UpdateInterval { numer: 3, denom: 2 };
    assert_eq!(three_halves.per_second(10), 6);
    let shortest = UpdateInterval { numer: 1, denom: u64::MAX };
    assert_eq!(shortest.per_second(u64::MAX), (u64::MAX as u128) * (u64::MAX as u128));
}

#[test]
fn whole_seconds_is_that_many_seconds() {
    assert_eq!(UpdateInterval::whole_seconds(1), UpdateInterval { numer: 1, denom: 1 });
    assert_eq!(UpdateInterval::whole_seconds(5), UpdateInterval { numer: 5, denom: 1 });
    assert_eq!(UpdateInterval::whole_seconds(0), UpdateInterval { numer: 0, denom: 1 });
    assert_eq!(
        UpdateInterval::whole_seconds(u64::MAX),
        UpdateInterval { numer: u64::MAX, denom: 1 }
    );
}

#[test]
fn columns_are_left_out_from_the_right() {
    assert_eq!(COLUMNS, 6);
    assert_eq!(COLUMN_SPACING, 1);
    let expected = [
        (0u16, 0usize), (1, 0), (21, 0), (22, 1), (42, 1), (43, 2), (53, 2), (54, 3), (64, 3),
        (65, 4), (75, 4), (76, 5), (86, 5), (87, 6), (200, 6), (u16::MAX, 6),
    ];
    for (width, columns) in expected.iter() {
        assert_eq!(visible_columns(*width), *columns, "at width {}", width);
    }
}

#[test]
fn a_row_holds_the_six_cells_of_a_record() {
    let sda = Partition {
        name: "sda".to_string(),
        mountpoint: "/home".to_string(),
        bytes_read: 10_000,
        bytes_written: 20_000,
        bytes_read_recently: 4096,
        bytes_written_recently: 500,
        used_percent: 42,
        bytes_free: 3 * (1 << 30),
    };
    assert_eq!(
        row(&sda, one_second(), ByteUnits::HumanScaled),
        vec!["sda", "/home", " 42%", "3G", "4K", "500B"]
    );
    assert_eq!(
        row(&sda, one_second(), ByteUnits::RawBytes),
        vec!["sda", "/home", " 42%", "3221225472", "4096", "500"]
    );
    assert_eq!(
        row(&sda, UpdateInterval { numer: 1, denom: 4 }, ByteUnits::HumanScaled),
        vec!["sda", "/home", " 42%", "3G", "16K", "1K"]
    );
    assert_eq!(
        row(&sda, UpdateInterval { numer: 2, denom: 1 }, ByteUnits::RawBytes),
        vec!["sda", "/home", " 42%", "3221225472", "2048", "250"]
    );
}

#[test]
fn two_devices_are_laid_out_in_the_order_of_their_names() {
    let store = PartitionStore::from_records(&vec![record("sdc", "/c", 10), record("sda", "/", 42)]);
    let table = layout(&store.sorted(), one_second(), ByteUnits::HumanScaled, 100);
    assert_eq!(table.header, vec!["Disk", "Mount", "Used", "Free", "R/s", "W/s"]);
    assert_eq!(table.widths, vec![20, 20, 10, 10, 10, 10]);
    assert_eq!(table.spacing, 1);
    assert_eq!(table.rows.len(), 2);
    assert_eq!(table.rows[0], vec!["sda", "/", " 42%", "0B", "0B", "0B"]);
    assert_eq!(table.rows[1], vec!["sdc", "/c", " 10%", "0B", "0B", "0B"]);
}

#[test]
fn a_narrow_table_keeps_its_leading_columns() {
    let list = vec![record("sda", "/", 42), record("sdc", "/c", 10)];
    let table = layout(&list, one_second(), ByteUnits::HumanScaled, 60);
    assert_eq!(table.header, vec!["Disk", "Mount", "Used"]);
    assert_eq!(table.widths, vec![20, 20, 10]);
    assert_eq!(table.rows, vec![vec!["sda", "/", " 42%"], vec!["sdc", "/c", " 10%"]]);
    let narrowest = layout(&list, one_second(), ByteUnits::HumanScaled, 22);
    assert_eq!(narrowest.header, vec!["Disk"]);
    assert_eq!(narrowest.widths, vec![20]);
    assert_eq!(narrowest.rows, vec![vec!["sda"], vec!["sdc"]]);
    let nothing = layout(&list, one_second(), ByteUnits::HumanScaled, 21);
    assert!(nothing.header.is_empty());
    assert!(nothing.widths.is_empty());
    assert_eq!(nothing.rows, vec![Vec::<String>::new(), Vec::<String>::new()]);
}

#[test]
fn the_table_of_no_records_has_a_header_only() {
    let table = layout(&Vec::new(), one_second(), ByteUnits::RawBytes, 87);
    assert_eq!(table.header.len(), 6);
    assert!(table.rows.is_empty());
}
