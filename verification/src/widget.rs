//! The disk panel: the state it keeps from poll to poll, and the two steps
//! that its scheduler calls, `update` and `draw`.

use crate::collect::{collect, degraded, readable, CollectionError};
use crate::device::AliasTable;
use crate::frame::{
    addressable, can_address, frame_bounds, frame_symbols, paint_table, painted_symbols,
    same_outside, Area,
};
use crate::interval::UpdateInterval;
use crate::partition::{views, DeviceCounters, MountReading, PartitionView};
use crate::render::{
    column_widths, columns_shown, header_labels, layout, lemma_width_needed, table_rows,
    visible_columns, ByteUnits, COLUMN_SPACING,
};
use crate::listing::listing;
use crate::store::{left_out, next_state, PartitionStore, Skipped};
use crate::text::texts;
use tui::buffer::Buffer;
use tui::style::Style;
use vstd::prelude::*;

verus! {

/// The styles that the colour theme supplies to the panel.
pub struct Colorscheme {
    /// The style of the rows.
    pub text: Style,
    /// The style of the header row.
    pub header: Style,
}

/// Why nothing was drawn.
#[derive(Clone, Copy, Debug, PartialEq, Eq, Structural)]
pub enum RenderError {
    /// The target does not lie inside the frame buffer, or lies where the
    /// painter cannot address it.
    OutsideFrame,
    /// The target has no line, or is narrower than the first column.
    AreaTooSmall,
}

/// What a poll had to leave aside.
pub struct PollReport {
    /// The mount points whose usage query failed.
    pub degraded: Vec<String>,
    /// The mounts that could not be joined with counters.
    pub skipped: Vec<Skipped>,
}

/// The disk panel.
pub struct DiskWidget<'a> {
    title: String,
    update_interval: UpdateInterval,
    colorscheme: &'a Colorscheme,
    partitions: PartitionStore,
    aliases: AliasTable,
    units: ByteUnits,
}

/// The panel as the contracts see it.
pub struct DiskWidgetView {
    pub title: Seq<char>,
    pub update_interval: UpdateInterval,
    pub colorscheme: Colorscheme,
    pub partitions: Map<Seq<char>, PartitionView>,
    pub aliases: Seq<(Seq<char>, Seq<char>)>,
    pub units: ByteUnits,
}

impl<'a> View for DiskWidget<'a> {
    type V = DiskWidgetView;

    closed spec fn view(&self) -> DiskWidgetView {
        DiskWidgetView {
            title: self.title@,
            update_interval: self.update_interval,
            colorscheme: *self.colorscheme,
            partitions: self.partitions@,
            aliases: self.aliases@,
            units: self.units,
        }
    }
}

impl<'a> DiskWidget<'a> {
    #[verifier::type_invariant]
    spec fn cadence_is_positive(self) -> bool {
        self.update_interval.wf()
    }

    /// A panel that has not polled yet: it is updated once a second, knows
    /// the standard aliases, and writes byte counts in scaled units.
    pub fn new(colorscheme: &'a Colorscheme) -> (widget: DiskWidget<'a>)
        ensures
            widget@.title == " Disk Usage "@,
            widget@.update_interval == (UpdateInterval { numer: 1, denom: 1 }),
            widget@.colorscheme == *colorscheme,
            widget@.partitions == Map::<Seq<char>, PartitionView>::empty(),
            widget@.aliases == seq![("cryptroot"@, "dm-0"@)],
            widget@.units == ByteUnits::HumanScaled,
    {
        DiskWidget {
            title: " Disk Usage ".to_owned(),
            update_interval: UpdateInterval::whole_seconds(1),
            colorscheme,
            partitions: PartitionStore::new(),
            aliases: AliasTable::standard(),
            units: ByteUnits::HumanScaled,
        }
    }

    /// The title for the panel's border.
    pub fn title(&self) -> (title: &str)
        ensures
            title@ == self@.title,
    {
        self.title.as_str()
    }

    /// The state of the latest poll.
    pub fn partitions(&self) -> (state: &PartitionStore)
        ensures
            state@ == self@.partitions,
    {
        &self.partitions
    }

    /// The cadence at which the panel asks to be updated.
    pub fn get_update_interval(&self) -> (interval: UpdateInterval)
        ensures
            interval == self@.update_interval,
            interval.wf(),
    {
        proof {
            use_type_invariant(self);
        }
        self.update_interval
    }

    /// Chooses how byte counts are written.
    pub fn set_units(&mut self, units: ByteUnits)
        ensures
            final(self)@ == (DiskWidgetView { units, ..old(self)@ }),
    {
        proof {
            use_type_invariant(&*self);
        }
        self.units = units;
    }

    /// One poll. The arguments are what the queries to the operating system
    /// brought back, `None` for a query that could not be completed. A poll
    /// that fails as a whole leaves the state as it was.
    pub fn update(
        &mut self,
        counters: Option<Vec<DeviceCounters>>,
        mounts: Option<Vec<MountReading>>,
    ) -> (outcome: Result<PollReport, CollectionError>)
        ensures
            outcome is Ok <==> counters is Some && mounts is Some,
            match outcome {
                Ok(report) => {
                    &&& final(self)@ == (DiskWidgetView {
                        partitions: next_state(
                            old(self)@.partitions,
                            old(self)@.aliases,
                            views(counters->0@),
                            readable(views(mounts->0@)),
                        ),
                        ..old(self)@
                    })
                    &&& texts(report.degraded@) == degraded(views(mounts->0@))
                    &&& views(report.skipped@) == left_out(
                        old(self)@.partitions,
                        old(self)@.aliases,
                        views(counters->0@),
                        readable(views(mounts->0@)),
                    )
                },
                Err(error) => {
                    &&& final(self)@ == old(self)@
                    &&& error == if counters is None {
                        CollectionError::CountersUnavailable
                    } else {
                        CollectionError::MountsUnavailable
                    }
                },
            },
    {
        proof {
            use_type_invariant(&*self);
        }
        match collect(counters, mounts) {
            Ok(collected) => {
                let (next, skipped) = self.partitions.update(
                    &self.aliases,
                    &collected.counters,
                    &collected.usage,
                );
                self.partitions = next;
                Ok(PollReport { degraded: collected.degraded, skipped })
            },
            Err(error) => Err(error),
        }
    }

    /// Draws the table into `target`, a rectangle of the frame buffer: the
    /// header row, and one row for each record in the order of the names,
    /// with as many of the leading columns as the target's width shows. No
    /// symbol outside the target changes, and where nothing can be drawn the
    /// frame buffer is left as it was.
    pub fn draw(&self, target: Area, buf: &mut Buffer) -> (outcome: Result<(), RenderError>)
        ensures
            frame_bounds(*final(buf)) == frame_bounds(*old(buf)),
            same_outside(
                frame_symbols(*old(buf)),
                frame_symbols(*final(buf)),
                frame_bounds(*old(buf)),
                target,
            ),
            outcome is Ok <==> addressable(
                target,
                frame_symbols(*old(buf)).len(),
                frame_bounds(*old(buf)),
            ) && target.height > 0 && columns_shown(target.width) > 0,
            match outcome {
                Ok(_) => frame_symbols(*final(buf)) == painted_symbols(
                    frame_symbols(*old(buf)),
                    frame_bounds(*old(buf)),
                    target.tuple(),
                    header_labels().take(columns_shown(target.width) as int),
                    table_rows(
                        listing(self@.partitions),
                        self@.update_interval,
                        self@.units,
                        columns_shown(target.width),
                    ),
                    column_widths().take(columns_shown(target.width) as int),
                    COLUMN_SPACING,
                ),
                Err(error) => {
                    &&& *final(buf) == *old(buf)
                    &&& error == if addressable(
                        target,
                        frame_symbols(*old(buf)).len(),
                        frame_bounds(*old(buf)),
                    ) {
                        RenderError::AreaTooSmall
                    } else {
                        RenderError::OutsideFrame
                    }
                },
            },
    {
        proof {
            use_type_invariant(self);
        }
        if !can_address(target, buf) {
            return Err(RenderError::OutsideFrame);
        }
        let columns = visible_columns(target.width);
        if target.height == 0 || columns == 0 {
            return Err(RenderError::AreaTooSmall);
        }
        let list = self.partitions.sorted();
        let table = layout(&list, self.update_interval, self.units, target.width);
        proof {
            lemma_width_needed(columns as nat);
        }
        paint_table(
            buf,
            target,
            &table.header,
            &table.rows,
            &table.widths,
            table.spacing,
            self.colorscheme.text,
            self.colorscheme.header,
        );
        Ok(())
    }
}

} // verus!
