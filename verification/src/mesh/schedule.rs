use vstd::prelude::*;

use crate::mesh::topology::DeviceId;

verus! {

/// Direction assigned to a cell.
#[derive(Debug, Clone, Copy, PartialEq, Eq, Structural)]
pub enum CellDirection {
    /// Transmission from source to peer.
    Transmit,
    /// Reception by source from peer.
    Receive,
    /// Shared cell for management traffic.
    Shared,
}

/// One cell in a time-frequency schedule.
#[derive(Debug, Clone, Copy, PartialEq, Eq)]
pub struct Cell {
    /// Superframe timeslot number.
    pub timeslot: u16,
    /// Offset within the channel table.
    pub channel_offset: u8,
    /// First link participant.
    pub source: DeviceId,
    /// Second link participant.
    pub destination: DeviceId,
    /// Cell purpose.
    pub direction: CellDirection,
}

impl Cell {
    /// Position in superframe order: by timeslot, then by channel offset.
    pub open spec fn place(self) -> int {
        self.timeslot * 256 + self.channel_offset
    }

    /// Whether a device takes part in the cell.
    pub open spec fn involves(self, device: DeviceId) -> bool {
        self.source == device || self.destination == device
    }

    /// Whether two cells need a device twice in one timeslot.
    pub open spec fn clashes(self, other: Cell) -> bool {
        self.timeslot == other.timeslot && (self.involves(other.source) || self.involves(
            other.destination,
        ))
    }

    fn position(&self) -> (place: u32)
        ensures
            place == self.place(),
    {
        self.timeslot as u32 * 256 + self.channel_offset as u32
    }

    fn has(&self, device: DeviceId) -> (involved: bool)
        ensures
            involved == self.involves(device),
    {
        self.source.same(device) || self.destination.same(device)
    }

    fn conflicts(&self, other: &Cell) -> (conflict: bool)
        ensures
            conflict == self.clashes(*other),
    {
        self.timeslot == other.timeslot && (self.has(other.source) || self.has(other.destination))
    }
}

/// What a schedule holds.
#[verifier::ext_equal]
pub struct ScheduleView {
    /// Superframe length.
    pub superframe_size: u16,
    /// Cells in superframe order.
    pub cells: Seq<Cell>,
}

impl ScheduleView {
    /// Why a cell is refused, if it is.
    pub open spec fn violation(self, cell: Cell) -> Option<ScheduleError> {
        if cell.timeslot >= self.superframe_size {
            Some(ScheduleError::Timeslot(cell.timeslot))
        } else if cell.channel_offset > 15 {
            Some(ScheduleError::Channel(cell.channel_offset))
        } else if cell.source == cell.destination {
            Some(ScheduleError::Loopback)
        } else if exists|index: int|
            0 <= index < self.cells.len() && (#[trigger] self.cells[index]).clashes(cell) {
            Some(ScheduleError::Conflict(cell.timeslot))
        } else if exists|index: int|
            0 <= index < self.cells.len() && (#[trigger] self.cells[index]).place()
                == cell.place() {
            Some(
                ScheduleError::RadioConflict {
                    timeslot: cell.timeslot,
                    channel: cell.channel_offset,
                },
            )
        } else {
            None
        }
    }

    /// Whether a position keeps the superframe order when a cell goes there.
    pub open spec fn fits_at(self, cell: Cell, position: int) -> bool {
        &&& 0 <= position <= self.cells.len()
        &&& forall|index: int|
            0 <= index < position ==> (#[trigger] self.cells[index]).place() < cell.place()
        &&& forall|index: int|
            position <= index < self.cells.len() ==> cell.place() < (
            #[trigger] self.cells[index]).place()
    }

    /// Cells lie in the superframe, in strictly ascending order, and no device
    /// is needed twice in one timeslot.
    pub open spec fn consistent(self) -> bool {
        &&& forall|index: int|
            0 <= index < self.cells.len() ==> (#[trigger] self.cells[index]).timeslot
                < self.superframe_size && self.cells[index].channel_offset <= 15
                && self.cells[index].source != self.cells[index].destination
        &&& forall|first: int, second: int|
            #![trigger self.cells[first], self.cells[second]]
            0 <= first < second < self.cells.len() ==> self.cells[first].place()
                < self.cells[second].place() && !self.cells[first].clashes(self.cells[second])
    }

    /// The schedule without the cells of a device.
    pub open spec fn without(self, device: DeviceId) -> ScheduleView {
        ScheduleView { cells: self.cells.filter(|cell: Cell| !cell.involves(device)), ..self }
    }
}

/// In a consistent schedule a cell that is not refused goes to exactly one position.
pub proof fn lemma_position_is_unique(
    schedule: ScheduleView,
    cell: Cell,
    left: int,
    right: int,
)
    requires
        schedule.fits_at(cell, left),
        schedule.fits_at(cell, right),
    ensures
        left == right,
{
    if left < right {
        assert(schedule.cells[left].place() < cell.place());
    } else if right < left {
        assert(schedule.cells[right].place() < cell.place());
    }
}

/// Validated schedule without per-device conflicts.
#[derive(Debug, Clone)]
pub struct Schedule {
    superframe_size: u16,
    cells: Vec<Cell>,
}

impl View for Schedule {
    type V = ScheduleView;

    closed spec fn view(&self) -> ScheduleView {
        ScheduleView { superframe_size: self.superframe_size, cells: self.cells@ }
    }
}

impl Default for Schedule {
    fn default() -> (schedule: Self)
        ensures
            schedule.well_formed(),
            schedule@ == (ScheduleView { superframe_size: 0, cells: Seq::empty() }),
    {
        Schedule { superframe_size: 0, cells: Vec::new() }
    }
}

impl Schedule {
    /// The schedule is free of conflicts and in order.
    pub open spec fn well_formed(&self) -> bool {
        self@.consistent()
    }

    /// Creates an empty superframe.
    pub fn new(superframe_size: u16) -> (result: Result<Self, ScheduleError>)
        ensures
            if superframe_size == 0 {
                result == Err::<Self, ScheduleError>(ScheduleError::EmptySuperframe)
            } else {
                result matches Ok(schedule) && schedule.well_formed() && schedule@ == (
                ScheduleView { superframe_size, cells: Seq::empty() })
            },
    {
        if superframe_size == 0 {
            return Err(ScheduleError::EmptySuperframe);
        }
        Ok(Schedule { superframe_size, cells: Vec::new() })
    }

    /// Adds a cell after validating bounds and conflicts.
    pub fn insert(&mut self, cell: Cell) -> (result: Result<(), ScheduleError>)
        requires
            old(self).well_formed(),
        ensures
            final(self).well_formed(),
            match old(self)@.violation(cell) {
                Some(error) => result == Err::<(), ScheduleError>(error)
                    && final(self)@ == old(self)@,
                None => result == Ok::<(), ScheduleError>(()) && exists|position: int|
                    #[trigger] old(self)@.fits_at(cell, position) && final(self)@ == (
                    ScheduleView {
                        cells: old(self)@.cells.insert(position, cell),
                        ..old(self)@
                    }),
            },
    {
        let ghost before = self@;
        if cell.timeslot >= self.superframe_size {
            return Err(ScheduleError::Timeslot(cell.timeslot));
        }
        if cell.channel_offset > 15 {
            return Err(ScheduleError::Channel(cell.channel_offset));
        }
        if cell.source.same(cell.destination) {
            return Err(ScheduleError::Loopback);
        }
        if self.clashes_with(&cell) {
            return Err(ScheduleError::Conflict(cell.timeslot));
        }
        let index: usize = self.lower_bound(&cell);
        if index < self.cells.len() && self.cells[index].position() == cell.position() {
            assert(before.cells[index as int].place() == cell.place());
            return Err(
                ScheduleError::RadioConflict {
                    timeslot: cell.timeslot,
                    channel: cell.channel_offset,
                },
            );
        }
        assert(before.fits_at(cell, index as int)) by {
            assert forall|at: int| index <= at < before.cells.len() implies cell.place() < (
            #[trigger] before.cells[at]).place() by {
                if at > index {
                    assert(before.cells[index as int].place() < before.cells[at].place());
                }
            }
        }
        self.cells.insert(index, cell);
        assert(self@.consistent()) by {
            let after = self@.cells;
            assert forall|at: int| 0 <= at < after.len() implies (#[trigger] after[at]).timeslot
                < self@.superframe_size && after[at].channel_offset <= 15 && after[at].source
                != after[at].destination by {
                if at < index {
                    assert(after[at] == before.cells[at]);
                } else if at > index {
                    assert(after[at] == before.cells[at - 1]);
                }
            }
            assert forall|first: int, second: int|
                #![trigger after[first], after[second]]
                0 <= first < second < after.len() implies after[first].place()
                < after[second].place() && !after[first].clashes(after[second]) by {
                let left = if first < index {
                    first
                } else {
                    first - 1
                };
                let right = if second < index {
                    second
                } else {
                    second - 1
                };
                if first == index {
                    assert(after[second] == before.cells[right]);
                    assert(!before.cells[right].clashes(cell));
                } else if second == index {
                    assert(after[first] == before.cells[left]);
                    assert(!before.cells[left].clashes(cell));
                } else {
                    assert(after[first] == before.cells[left]);
                    assert(after[second] == before.cells[right]);
                }
            }
        }
        Ok(())
    }

    fn clashes_with(&self, cell: &Cell) -> (clash: bool)
        ensures
            clash == exists|index: int|
                0 <= index < self@.cells.len() && (#[trigger] self@.cells[index]).clashes(*cell),
    {
        let mut index: usize = 0;
        while index < self.cells.len()
            invariant
                index <= self.cells@.len(),
                forall|at: int|
                    0 <= at < index ==> !(#[trigger] self.cells@[at]).clashes(*cell),
            decreases self.cells@.len() - index,
        {
            if self.cells[index].conflicts(cell) {
                assert(self@.cells[index as int].clashes(*cell));
                return true;
            }
            index += 1;
        }
        false
    }

    fn lower_bound(&self, cell: &Cell) -> (index: usize)
        requires
            self.well_formed(),
        ensures
            index <= self@.cells.len(),
            forall|at: int|
                0 <= at < index ==> (#[trigger] self@.cells[at]).place() < cell.place(),
            forall|at: int|
                index <= at < self@.cells.len() ==> (#[trigger] self@.cells[at]).place()
                    >= cell.place(),
    {
        let mut low: usize = 0;
        let mut high: usize = self.cells.len();
        while low < high
            invariant
                self.well_formed(),
                low <= high <= self.cells@.len(),
                forall|at: int|
                    0 <= at < low ==> (#[trigger] self@.cells[at]).place() < cell.place(),
                forall|at: int|
                    high <= at < self@.cells.len() ==> (#[trigger] self@.cells[at]).place()
                        >= cell.place(),
            decreases high - low,
        {
            let middle: usize = low + (high - low) / 2;
            if self.cells[middle].position() < cell.position() {
                assert forall|at: int| 0 <= at <= middle implies (
                #[trigger] self@.cells[at]).place() < cell.place() by {
                    if at < middle {
                        assert(self@.cells[at].place() < self@.cells[middle as int].place());
                    }
                }
                low = middle + 1;
            } else {
                assert forall|at: int| middle <= at < self@.cells.len() implies (
                #[trigger] self@.cells[at]).place() >= cell.place() by {
                    if at > middle {
                        assert(self@.cells[middle as int].place() < self@.cells[at].place());
                    }
                }
                high = middle;
            }
        }
        low
    }

    /// Removes every cell involving a device and returns the number removed.
    pub fn remove_device(&mut self, device: DeviceId) -> (removed: usize)
        requires
            old(self).well_formed(),
        ensures
            final(self).well_formed(),
            final(self)@ == old(self)@.without(device),
            removed == old(self)@.cells.len() - final(self)@.cells.len(),
    {
        let ghost before = self@;
        let ghost stays = |cell: Cell| !cell.involves(device);
        let previous: usize = self.cells.len();
        let mut kept: Vec<Cell> = Vec::new();
        let mut index: usize = 0;
        reveal(Seq::filter);
        assert(before.cells.take(0).filter(stays) =~= Seq::<Cell>::empty());
        while index < self.cells.len()
            invariant
                index <= self.cells@.len(),
                self@ == before,
                before.consistent(),
                stays == |cell: Cell| !cell.involves(device),
                kept@ == before.cells.take(index as int).filter(stays),
                kept@.len() <= index,
                (ScheduleView { superframe_size: before.superframe_size, cells: kept@ }).consistent(),
                forall|at: int|
                    0 <= at < kept@.len() ==> exists|origin: int|
                        0 <= origin < index && (#[trigger] kept@[at])
                            == #[trigger] before.cells[origin],
            decreases self.cells@.len() - index,
        {
            reveal(Seq::filter);
            let ghost earlier = kept@;
            assert(before.cells.take(index + 1).drop_last() =~= before.cells.take(index as int));
            assert(before.cells.take(index + 1).last() == before.cells[index as int]);
            let cell: Cell = self.cells[index];
            if !cell.has(device) {
                kept.push(cell);
                assert forall|first: int, second: int|
                    #![trigger kept@[first], kept@[second]]
                    0 <= first < second < kept@.len() implies kept@[first].place()
                    < kept@[second].place() && !kept@[first].clashes(kept@[second]) by {
                    if second == earlier.len() {
                        assert(kept@[first] == earlier[first]);
                        let origin = choose|origin: int|
                            0 <= origin < index
                                && earlier[first] == #[trigger] before.cells[origin];
                        assert(before.cells[origin].place() < before.cells[index as int].place());
                    } else {
                        assert(earlier[first].place() < earlier[second].place());
                    }
                }
            }
            assert(kept@ =~= before.cells.take(index + 1).filter(stays));
            assert forall|at: int| 0 <= at < kept@.len() implies exists|origin: int|
                0 <= origin < index + 1 && (#[trigger] kept@[at])
                    == #[trigger] before.cells[origin] by {
                if at < earlier.len() {
                    assert(kept@[at] == earlier[at]);
                } else {
                    assert(kept@[at] == before.cells[index as int]);
                }
            }
            index += 1;
        }
        assert(before.cells.take(index as int) =~= before.cells);
        let count: usize = kept.len();
        self.cells = kept;
        assert(self@ =~= before.without(device));
        previous - count
    }

    /// Returns cells in superframe order.
    pub fn cells(&self) -> (cells: &[Cell])
        ensures
            cells@ == self@.cells,
    {
        self.cells.as_slice()
    }

    /// Returns the superframe length.
    pub fn superframe_size(&self) -> (size: u16)
        ensures
            size == self@.superframe_size,
    {
        self.superframe_size
    }
}

proof fn lemma_filtered_comes_from(cells: Seq<Cell>, device: DeviceId, at: int)
    requires
        0 <= at < cells.filter(|cell: Cell| !cell.involves(device)).len(),
    ensures
        cells.contains(cells.filter(|cell: Cell| !cell.involves(device))[at]),
    decreases cells.len(),
{
    reveal(Seq::filter);
    let stays = |cell: Cell| !cell.involves(device);
    let left = cells.filter(stays);
    let rest = cells.drop_last();
    if at < rest.filter(stays).len() {
        lemma_filtered_comes_from(rest, device, at);
        let origin = choose|origin: int| 0 <= origin < rest.len() && rest[origin] == left[at];
        assert(cells[origin] == left[at]);
    } else {
        assert(cells.last() == left[at]);
    }
}

/// No cell of a device is left once the device was removed, and every other
/// cell is.
pub proof fn lemma_removed_device_has_no_cells(schedule: ScheduleView, device: DeviceId)
    ensures
        forall|cell: Cell| #[trigger]
            schedule.without(device).cells.contains(cell) <==> schedule.cells.contains(cell)
                && !cell.involves(device),
{
    broadcast use vstd::seq_lib::group_filter_ensures;

    let stays = |cell: Cell| !cell.involves(device);
    assert forall|cell: Cell| #[trigger]
        schedule.without(device).cells.contains(cell) <==> schedule.cells.contains(cell)
            && !cell.involves(device) by {
        let left = schedule.cells.filter(stays);
        if left.contains(cell) {
            let at = choose|at: int| 0 <= at < left.len() && left[at] == cell;
            assert(stays(left[at]));
            lemma_filtered_comes_from(schedule.cells, device, at);
        }
        if schedule.cells.contains(cell) && !cell.involves(device) {
            let at = choose|at: int| 0 <= at < schedule.cells.len() && schedule.cells[at] == cell;
            assert(left.contains(schedule.cells[at]));
        }
    }
}

/// A device sends or receives at most once in a timeslot: of two cells with
/// the same timeslot that both name it on either side, both are the same one.
pub proof fn lemma_device_is_busy_once(
    schedule: ScheduleView,
    first: int,
    second: int,
    device: DeviceId,
)
    requires
        schedule.consistent(),
        0 <= first < schedule.cells.len(),
        0 <= second < schedule.cells.len(),
        schedule.cells[first].timeslot == schedule.cells[second].timeslot,
        schedule.cells[first].source == device || schedule.cells[first].destination == device,
        schedule.cells[second].source == device || schedule.cells[second].destination == device,
    ensures
        first == second,
{
    if first < second {
        assert(!schedule.cells[first].clashes(schedule.cells[second]));
    } else if second < first {
        assert(!schedule.cells[second].clashes(schedule.cells[first]));
    }
}

/// The cells stand in the order of their timeslots and, within a timeslot, of
/// their channel offsets; no two of them share both. Each lies within the
/// superframe and the sixteen channels and joins two devices.
pub proof fn lemma_cells_are_ordered(schedule: ScheduleView, first: int, second: int)
    requires
        schedule.consistent(),
        0 <= first < second < schedule.cells.len(),
    ensures
        schedule.cells[first].timeslot < schedule.cells[second].timeslot
            || schedule.cells[first].timeslot == schedule.cells[second].timeslot
            && schedule.cells[first].channel_offset < schedule.cells[second].channel_offset,
        schedule.cells[second].timeslot < schedule.superframe_size,
        schedule.cells[first].channel_offset <= 15,
        schedule.cells[first].source != schedule.cells[first].destination,
{
    assert(schedule.cells[first].place() < schedule.cells[second].place());
    assert(schedule.cells[first].channel_offset <= 15);
    assert(schedule.cells[second].channel_offset <= 15);
}

/// Whether a cell leaves the two devices of another one alone.
pub open spec fn apart(left: Cell, right: Cell) -> bool {
    &&& left.source != right.source
    &&& left.source != right.destination
    &&& left.destination != right.source
    &&& left.destination != right.destination
}

/// A cell is taken up exactly when its timeslot lies in the superframe, its
/// channel among the sixteen, its two devices differ, and every cell of the
/// same timeslot keeps to other devices and to another channel. The refusal
/// names the first of these that fails.
pub proof fn lemma_free_cell_is_accepted(schedule: ScheduleView, cell: Cell)
    ensures
        schedule.violation(cell) is None <==> cell.timeslot < schedule.superframe_size
            && cell.channel_offset <= 15 && cell.source != cell.destination && forall|index: int|
            0 <= index < schedule.cells.len() && (#[trigger] schedule.cells[index]).timeslot
                == cell.timeslot ==> apart(schedule.cells[index], cell)
                && schedule.cells[index].channel_offset != cell.channel_offset,
        schedule.violation(cell) == Some(ScheduleError::Timeslot(cell.timeslot))
            <==> cell.timeslot >= schedule.superframe_size,
        schedule.violation(cell) is Some && schedule.violation(cell)->0 is Channel
            <==> cell.timeslot < schedule.superframe_size && cell.channel_offset > 15,
        schedule.violation(cell) == Some(ScheduleError::Conflict(cell.timeslot)) <==> cell.timeslot
            < schedule.superframe_size && cell.channel_offset <= 15 && cell.source
            != cell.destination && exists|index: int|
            0 <= index < schedule.cells.len() && (#[trigger] schedule.cells[index]).timeslot
                == cell.timeslot && !apart(schedule.cells[index], cell),
{
    assert forall|index: int|
        0 <= index < schedule.cells.len() && (#[trigger] schedule.cells[index]).timeslot
            == cell.timeslot && !apart(
            schedule.cells[index],
            cell,
        ) implies schedule.cells[index].clashes(cell) by {}
    if schedule.violation(cell) is None {
        assert forall|index: int|
            0 <= index < schedule.cells.len() && (#[trigger] schedule.cells[index]).timeslot
                == cell.timeslot implies apart(schedule.cells[index], cell)
            && schedule.cells[index].channel_offset != cell.channel_offset by {
            assert(!schedule.cells[index].clashes(cell));
            assert(schedule.cells[index].place() != cell.place());
        }
    } else if cell.timeslot < schedule.superframe_size && cell.channel_offset <= 15 && cell.source
        != cell.destination {
        let index = choose|index: int|
            0 <= index < schedule.cells.len() && ((#[trigger] schedule.cells[index]).clashes(cell)
                || schedule.cells[index].place() == cell.place());
        assert(schedule.cells[index].timeslot == cell.timeslot);
    }
}

/// Removing a device leaves exactly the cells that name it on neither side.
pub proof fn lemma_removal_by_devices(schedule: ScheduleView, device: DeviceId, cell: Cell)
    ensures
        schedule.without(device).cells.contains(cell) <==> schedule.cells.contains(cell)
            && cell.source != device && cell.destination != device,
        schedule.without(device).superframe_size == schedule.superframe_size,
{
    lemma_removed_device_has_no_cells(schedule, device);
}

/// Schedule-construction error.
#[derive(Debug, Clone, Copy, PartialEq, Eq, Structural)]
pub enum ScheduleError {
    /// The superframe length is zero.
    EmptySuperframe,
    /// A timeslot lies outside the superframe.
    Timeslot(u16),
    /// A channel offset lies outside the table.
    Channel(u8),
    /// The same device appears on both sides of a link.
    Loopback,
    /// A device is already occupied in the same timeslot.
    Conflict(u16),
    /// Two independent links attempt to use the same time-frequency cell.
    RadioConflict {
        /// Conflicting timeslot.
        timeslot: u16,
        /// Conflicting channel offset.
        channel: u8,
    },
}

/// A cell that is scheduled is there afterwards beside all cells that were; a
/// cell that is refused changes nothing.
pub proof fn lemma_cell_is_scheduled(
    schedule: &mut Schedule,
    cell: Cell,
    result: Result<(), ScheduleError>,
)
    requires
        call_ensures(Schedule::insert, (schedule, cell), result),
    ensures
        result is Err ==> final(schedule)@ == old(schedule)@,
        result is Ok ==> final(schedule)@.cells.len() == old(schedule)@.cells.len() + 1
            && final(schedule)@.cells.contains(cell) && forall|index: int|
            0 <= index < old(schedule)@.cells.len() ==> final(schedule)@.cells.contains(
                #[trigger] old(schedule)@.cells[index],
            ),
{
    if result is Ok {
        let before = old(schedule)@.cells;
        let after = final(schedule)@.cells;
        let position = choose|position: int|
            #[trigger] old(schedule)@.fits_at(cell, position) && final(schedule)@ == (
            ScheduleView { cells: before.insert(position, cell), ..old(schedule)@ });
        assert(after == before.insert(position, cell));
        assert(after[position] == cell);
        assert forall|index: int| 0 <= index < before.len() implies after.contains(
            #[trigger] before[index],
        ) by {
            if index < position {
                assert(after[index] == before[index]);
            } else {
                assert(after[index + 1] == before[index]);
            }
        }
    }
}

} // verus!
