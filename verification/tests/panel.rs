use disk_widget::collect::CollectionError;
use disk_widget::frame::{can_address, Area};
use disk_widget::interval::UpdateInterval;
use disk_widget::partition::{DeviceCounters, MountReading, UsageFigures};
use disk_widget::render::ByteUnits;
use disk_widget::store::LookupError;
use disk_widget::widget::{Colorscheme, DiskWidget, RenderError};
use tui::buffer::{Buffer, Cell};
use tui::layout::Rect;
use tui::style::{Color, Modifier, Style};

fn theme() -> Colorscheme {
    Colorscheme {
        text: Style::default().fg(Color::Green),
        header: Style::default().fg(Color::Green).modifier(Modifier::BOLD),
    }
}

fn counters(name: &str, bytes_read: u64, bytes_written: u64) -> DeviceCounters {
    DeviceCounters { name: name.to_string(), bytes_read, bytes_written }
}

fn reading(device: &str, mountpoint: &str, usage: Option<(u8, u64)>) -> MountReading {
    MountReading {
        device: device.to_string(),
        mountpoint: mountpoint.to_string(),
        usage: usage.map(|(used_percent, bytes_free)| UsageFigures { used_percent, bytes_free }),
    }
}

fn rect(area: Area) -> Rect {
    Rect { x: area.x, y: area.y, width: area.width, height: area.height }
}

fn filled(area: Area, symbol: &str) -> Buffer {
    let mut cell = Cell::default();
    cell.set_symbol(symbol);
    Buffer::filled(rect(area), &cell)
}

fn line(buf: &Buffer, from: u16, to: u16, y: u16) -> String {
    (from..to).map(|x| buf.get(x, y).symbol.clone()).collect()
}

fn two_devices<'a>(colorscheme: &'a Colorscheme) -> DiskWidget<'a> {
    let mut widget = DiskWidget::new(colorscheme);
    widget
        .update(
            Some(vec![counters("sdc", 100, 100), counters("sda", 1000, 500)]),
            Some(vec![
                reading("/dev/sdc", "/data", Some((10, 5 << 30))),
                reading("/dev/sda", "/", Some((42, 3 << 20))),
            ]),
        )
        .unwrap();
    widget
        .update(
            Some(vec![counters("sdc", 100, 2148), counters("sda", 1500, 700)]),
            Some(vec![
                reading("/dev/sdc", "/data", Some((10, 5 << 30))),
                reading("/dev/sda", "/", Some((42, 3 << 20))),
            ]),
        )
        .unwrap();
    widget
}

#[test]
fn a_new_panel_has_its_title_and_polls_once_a_second() {
    let colorscheme = theme();
    let widget = DiskWidget::new(&colorscheme);
    assert_eq!(widget.title(), " Disk Usage ");
    assert_eq!(widget.get_update_interval(), UpdateInterval { numer: 1, denom: 1 });
    assert_eq!(widget.partitions().len(), 0);
    assert!(widget.partitions().sorted().is_empty());
}

#[test]
fn the_panel_measures_movement_between_two_polls() {
    let colorscheme = theme();
    let widget = two_devices(&colorscheme);
    let state = widget.partitions();
    assert_eq!(state.len(), 2);
    let sda = state.get("sda").unwrap();
    assert_eq!(sda.bytes_read_recently, 500);
    assert_eq!(sda.bytes_written_recently, 200);
    let sdc = state.get("sdc").unwrap();
    assert_eq!(sdc.bytes_read_recently, 0);
    assert_eq!(sdc.bytes_written_recently, 2048);
}

#[test]
fn the_panel_reports_what_a_poll_left_aside() {
    let colorscheme = theme();
    let mut widget = DiskWidget::new(&colorscheme);
    let report = widget
        .update(
            Some(vec![counters("sda", 1, 1), counters("dm-0", 2, 2)]),
            Some(vec![
                reading("/dev/sda", "/boot", Some((42, 1))),
                reading("/dev/sdb", "/broken", None),
                reading("/dev/sdd", "/d", Some((1, 1))),
                reading("/dev/mapper/cryptroot", "/", Some((10, 1))),
                reading("/", "/odd", Some((1, 1))),
            ]),
        )
        .unwrap();
    assert_eq!(report.degraded, vec!["/broken".to_string()]);
    assert_eq!(report.skipped.len(), 2);
    assert_eq!(report.skipped[0].device, "/dev/sdd");
    assert_eq!(report.skipped[0].reason, LookupError::NoCounters);
    assert_eq!(report.skipped[1].device, "/");
    assert_eq!(report.skipped[1].reason, LookupError::NoDeviceName);
    let names: Vec<String> =
        widget.partitions().sorted().into_iter().map(|record| record.name).collect();
    assert_eq!(names, vec!["dm-0".to_string(), "sda".to_string()]);
    assert_eq!(widget.partitions().get("dm-0").unwrap().mountpoint, "/");
}

#[test]
fn a_failed_poll_keeps_the_last_good_state() {
    let colorscheme = theme();
    let mut widget = two_devices(&colorscheme);
    let lost = widget.update(None, Some(vec![reading("/dev/sda", "/", Some((1, 1)))]));
    assert_eq!(lost.err(), Some(CollectionError::CountersUnavailable));
    assert_eq!(widget.partitions().len(), 2);
    assert_eq!(widget.partitions().get("sda").unwrap().bytes_read_recently, 500);
    let lost = widget.update(Some(vec![counters("sda", 9999, 9999)]), None);
    assert_eq!(lost.err(), Some(CollectionError::MountsUnavailable));
    assert_eq!(widget.partitions().len(), 2);
    assert_eq!(widget.partitions().get("sda").unwrap().bytes_read, 1500);
    assert_eq!(widget.partitions().get("sdc").unwrap().bytes_written_recently, 2048);
    assert_eq!(widget.title(), " Disk Usage ");
    assert_eq!(widget.get_update_interval(), UpdateInterval { numer: 1, denom: 1 });
}

#[test]
fn the_table_is_drawn_with_its_rows_in_the_order_of_the_names() {
    let colorscheme = theme();
    let widget = two_devices(&colorscheme);
    let target = Area { x: 0, y: 0, width: 90, height: 6 };
    let mut buf = Buffer::empty(rect(target));
    assert_eq!(widget.draw(target, &mut buf), Ok(()));
    assert_eq!(line(&buf, 0, 20, 0).trim_end(), "Disk");
    assert_eq!(line(&buf, 21, 41, 0).trim_end(), "Mount");
    assert_eq!(line(&buf, 42, 52, 0).trim_end(), "Used");
    assert_eq!(line(&buf, 53, 63, 0).trim_end(), "Free");
    assert_eq!(line(&buf, 64, 74, 0).trim_end(), "R/s");
    assert_eq!(line(&buf, 75, 85, 0).trim_end(), "W/s");
    assert_eq!(line(&buf, 0, 90, 1).trim_end(), "");
    assert_eq!(line(&buf, 0, 20, 2).trim_end(), "sda");
    assert_eq!(line(&buf, 21, 41, 2).trim_end(), "/");
    assert_eq!(line(&buf, 42, 52, 2).trim_end(), " 42%");
    assert_eq!(line(&buf, 53, 63, 2).trim_end(), "3M");
    assert_eq!(line(&buf, 64, 74, 2).trim_end(), "500B");
    assert_eq!(line(&buf, 75, 85, 2).trim_end(), "200B");
    assert_eq!(line(&buf, 0, 20, 3).trim_end(), "sdc");
    assert_eq!(line(&buf, 21, 41, 3).trim_end(), "/data");
    assert_eq!(line(&buf, 42, 52, 3).trim_end(), " 10%");
    assert_eq!(line(&buf, 53, 63, 3).trim_end(), "5G");
    assert_eq!(line(&buf, 64, 74, 3).trim_end(), "0B");
    assert_eq!(line(&buf, 75, 85, 3).trim_end(), "2K");
    assert_eq!(line(&buf, 0, 90, 4).trim_end(), "");
    assert_eq!(buf.get(0, 0).style, colorscheme.header);
    assert_eq!(buf.get(0, 2).style, colorscheme.text);
    assert_eq!(*buf.area(), rect(target));
}

#[test]
fn raw_units_are_drawn_as_plain_numbers() {
    let colorscheme = theme();
    let mut widget = two_devices(&colorscheme);
    widget.set_units(ByteUnits::RawBytes);
    let target = Area { x: 0, y: 0, width: 87, height: 4 };
    let mut buf = Buffer::empty(rect(target));
    assert_eq!(widget.draw(target, &mut buf), Ok(()));
    assert_eq!(line(&buf, 53, 63, 2).trim_end(), "3145728");
    assert_eq!(line(&buf, 53, 63, 3).trim_end(), "5368709120");
    assert_eq!(line(&buf, 75, 85, 3).trim_end(), "2048");
}

#[test]
fn a_narrow_target_shows_the_leading_columns_only() {
    let colorscheme = theme();
    let widget = two_devices(&colorscheme);
    let target = Area { x: 0, y: 0, width: 50, height: 5 };
    let mut buf = Buffer::empty(rect(target));
    assert_eq!(widget.draw(target, &mut buf), Ok(()));
    assert_eq!(line(&buf, 0, 20, 0).trim_end(), "Disk");
    assert_eq!(line(&buf, 21, 41, 0).trim_end(), "Mount");
    assert_eq!(line(&buf, 41, 50, 0).trim_end(), "");
    assert_eq!(line(&buf, 0, 20, 2).trim_end(), "sda");
    assert_eq!(line(&buf, 21, 41, 2).trim_end(), "/");
    assert_eq!(line(&buf, 41, 50, 2).trim_end(), "");
    assert_eq!(line(&buf, 0, 20, 3).trim_end(), "sdc");
}

#[test]
fn nothing_is_written_outside_the_target() {
    let colorscheme = theme();
    let widget = two_devices(&colorscheme);
    let frame = Area { x: 3, y: 2, width: 120, height: 12 };
    let target = Area { x: 10, y: 4, width: 90, height: 5 };
    let mut buf = filled(frame, "x");
    assert_eq!(widget.draw(target, &mut buf), Ok(()));
    for y in frame.y..frame.y + frame.height {
        for x in frame.x..frame.x + frame.width {
            let inside = target.x <= x
                && x < target.x + target.width
                && target.y <= y
                && y < target.y + target.height;
            if !inside {
                assert_eq!(buf.get(x, y).symbol, "x", "at {}, {}", x, y);
            }
        }
    }
    assert_eq!(line(&buf, 10, 14, 4), "Disk");
    assert_eq!(line(&buf, 31, 36, 4), "Mount");
    assert_eq!(line(&buf, 10, 13, 6), "sda");
    assert_eq!(line(&buf, 10, 13, 7), "sdc");
    assert_eq!(line(&buf, 52, 56, 7), " 10%");
    assert_eq!(*buf.area(), rect(frame));
}

#[test]
fn rows_that_do_not_fit_the_height_are_not_drawn() {
    let colorscheme = theme();
    let widget = two_devices(&colorscheme);
    let target = Area { x: 0, y: 0, width: 90, height: 3 };
    let mut buf = Buffer::empty(rect(target));
    assert_eq!(widget.draw(target, &mut buf), Ok(()));
    assert_eq!(line(&buf, 0, 4, 0), "Disk");
    assert_eq!(line(&buf, 0, 3, 2), "sda");
    let only_header = Area { x: 0, y: 0, width: 90, height: 1 };
    let mut buf = Buffer::empty(rect(only_header));
    assert_eq!(widget.draw(only_header, &mut buf), Ok(()));
    assert_eq!(line(&buf, 0, 4, 0), "Disk");
}

#[test]
fn a_target_that_is_too_small_is_left_alone() {
    let colorscheme = theme();
    let widget = two_devices(&colorscheme);
    let narrow = Area { x: 0, y: 0, width: 21, height: 5 };
    let mut buf = filled(narrow, "x");
    let before = buf.clone();
    assert_eq!(widget.draw(narrow, &mut buf), Err(RenderError::AreaTooSmall));
    assert!(buf == before);
    let flat = Area { x: 0, y: 0, width: 90, height: 0 };
    let mut buf = Buffer::empty(rect(flat));
    let before = buf.clone();
    assert_eq!(widget.draw(flat, &mut buf), Err(RenderError::AreaTooSmall));
    assert!(buf == before);
    let empty = Area { x: 0, y: 0, width: 0, height: 0 };
    let mut buf = Buffer::empty(rect(empty));
    assert_eq!(widget.draw(empty, &mut buf), Err(RenderError::AreaTooSmall));
}

#[test]
fn a_target_outside_the_frame_is_refused() {
    let colorscheme = theme();
    let widget = two_devices(&colorscheme);
    let frame = Area { x: 0, y: 0, width: 90, height: 5 };
    let mut buf = filled(frame, "x");
    let before = buf.clone();
    let too_wide = Area { x: 0, y: 0, width: 91, height: 5 };
    assert_eq!(widget.draw(too_wide, &mut buf), Err(RenderError::OutsideFrame));
    let too_low = Area { x: 0, y: 1, width: 90, height: 5 };
    assert_eq!(widget.draw(too_low, &mut buf), Err(RenderError::OutsideFrame));
    let elsewhere = Area { x: 200, y: 200, width: 90, height: 5 };
    assert_eq!(widget.draw(elsewhere, &mut buf), Err(RenderError::OutsideFrame));
    assert!(buf == before);
    let shifted = Area { x: 5, y: 5, width: 90, height: 5 };
    let mut buf = Buffer::empty(rect(shifted));
    assert_eq!(widget.draw(frame, &mut buf), Err(RenderError::OutsideFrame));
    assert_eq!(widget.draw(shifted, &mut buf), Ok(()));
}

#[test]
fn a_frame_with_missing_cells_is_refused() {
    let colorscheme = theme();
    let widget = two_devices(&colorscheme);
    let frame = Area { x: 0, y: 0, width: 90, height: 5 };
    let mut buf = Buffer::empty(rect(frame));
    buf.content.truncate(100);
    assert_eq!(widget.draw(frame, &mut buf), Err(RenderError::OutsideFrame));
    assert_eq!(buf.content.len(), 100);
    let mut none = Buffer::default();
    assert_eq!(widget.draw(frame, &mut none), Err(RenderError::OutsideFrame));
    let at_the_edge = Area { x: 0, y: 65534, width: 90, height: 1 };
    let mut buf = Buffer::empty(rect(at_the_edge));
    assert_eq!(widget.draw(at_the_edge, &mut buf), Err(RenderError::OutsideFrame));
}

#[test]
fn a_cell_longer_than_its_column_is_cut_at_the_column() {
    let colorscheme = theme();
    let mut widget = DiskWidget::new(&colorscheme);
    widget
        .update(
            Some(vec![counters("a-device-with-a-very-long-name", 1, 1)]),
            Some(vec![reading(
                "/dev/disk/a-device-with-a-very-long-name",
                "/a/mount/point/far/down/the/tree",
                Some((100, 0)),
            )]),
        )
        .unwrap();
    let target = Area { x: 0, y: 0, width: 87, height: 3 };
    let mut buf = filled(target, ".");
    assert_eq!(widget.draw(target, &mut buf), Ok(()));
    assert_eq!(line(&buf, 0, 21, 2), "a-device-with-a-very.");
    assert_eq!(line(&buf, 21, 42, 2), "/a/mount/point/far/d.");
    assert_eq!(line(&buf, 42, 53, 2), "100%.......");
    assert_eq!(line(&buf, 85, 87, 0), "..");
    assert_eq!(line(&buf, 85, 87, 2), "..");
}

#[test]
fn can_address_tells_whether_the_target_lies_in_the_frame() {
    let frame = Area { x: 2, y: 3, width: 50, height: 10 };
    let buf = Buffer::empty(rect(frame));
    assert!(can_address(frame, &buf));
    assert!(can_address(Area { x: 2, y: 3, width: 0, height: 0 }, &buf));
    assert!(can_address(Area { x: 10, y: 5, width: 42, height: 8 }, &buf));
    assert!(!can_address(Area { x: 10, y: 5, width: 43, height: 8 }, &buf));
    assert!(!can_address(Area { x: 10, y: 5, width: 42, height: 9 }, &buf));
    assert!(!can_address(Area { x: 1, y: 3, width: 50, height: 10 }, &buf));
    assert!(!can_address(Area { x: 2, y: 2, width: 50, height: 10 }, &buf));
    assert!(!can_address(Area { x: u16::MAX, y: u16::MAX, width: u16::MAX, height: u16::MAX }, &buf));
    let mut short = Buffer::empty(rect(frame));
    short.content.pop();
    assert!(!can_address(frame, &short));
}
