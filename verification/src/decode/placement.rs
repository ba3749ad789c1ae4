//! Macroblocks in raster order.

use crate::decode::arena::{ArenaModel, CoefficientArena, CoefficientPlane};
use crate::decode::unpack;
use crate::decode::unpack::{unpack_macroblock, HighPassKernel};
use crate::decode::window::{ReconstructionWindow, WindowModel};
use crate::reconstruct::contract::QuantizedMacroblock;
use crate::reconstruct::pipeline;
use crate::reconstruct::pipeline::{grown, saturating_product};
use crate::types::{JxrError, JxrErrorKind};
use vstd::prelude::*;

verus! {

/// Which macroblock has which place, for the first macroblocks; `usize::MAX` stands for none.
pub open spec fn placed(
    positions: Seq<(usize, usize)>,
    width: int,
    places: int,
    offset: int,
    count: nat,
) -> Result<Seq<usize>, JxrError>
    decreases count,
{
    if count == 0 {
        Ok(Seq::new(places as nat, |place: int| usize::MAX))
    } else {
        let (x, y) = positions[count - 1];
        let place = y * width + x;
        match placed(positions, width, places, offset, (count - 1) as nat) {
            Err(error) => Err(error),
            Ok(earlier) => if place >= places {
                Err(JxrError::new(JxrErrorKind::InternalInvariant, "macroblock position"))
            } else if earlier[place] != usize::MAX {
                Err(
                    JxrError::new(
                        JxrErrorKind::InternalInvariant,
                        "duplicate macroblock position",
                    ),
                )
            } else {
                Ok(earlier.update(place, (offset + count - 1) as usize))
            },
        }
    }
}

/// Once a macroblock is refused, later ones do not matter.
proof fn lemma_placed_stops(
    positions: Seq<(usize, usize)>,
    width: int,
    places: int,
    offset: int,
    some: nat,
    count: nat,
)
    requires
        some <= count,
        placed(positions, width, places, offset, some) is Err,
    ensures
        placed(positions, width, places, offset, count) == placed(
            positions,
            width,
            places,
            offset,
            some,
        ),
    decreases count,
{
    if some < count {
        lemma_placed_stops(positions, width, places, offset, some, (count - 1) as nat);
    }
}

/// The macroblocks at the first places.
pub open spec fn unpacked_at(
    arena: ArenaModel,
    plane: CoefficientPlane,
    slots: Seq<usize>,
    count: nat,
    rule: spec_fn(HighPassKernel, Seq<i32>) -> Option<Seq<i32>>,
) -> Result<Seq<QuantizedMacroblock>, JxrError>
    decreases count,
{
    if count == 0 {
        Ok(Seq::empty())
    } else {
        let index = slots[count - 1];
        let macroblock = unpack::unpacked(
            arena,
            index as int,
            plane.block_columns,
            plane.block_rows,
            rule,
        );
        match unpacked_at(arena, plane, slots, (count - 1) as nat, rule) {
            Err(error) => Err(error),
            Ok(earlier) => if index == usize::MAX {
                Err(JxrError::new(JxrErrorKind::InternalInvariant, "missing macroblock position"))
            } else if macroblock is Err {
                Err(macroblock->Err_0)
            } else {
                Ok(earlier.push(macroblock->Ok_0))
            },
        }
    }
}

/// Once a place is refused, later ones do not matter.
proof fn lemma_unpacked_stops(
    arena: ArenaModel,
    plane: CoefficientPlane,
    slots: Seq<usize>,
    some: nat,
    count: nat,
    rule: spec_fn(HighPassKernel, Seq<i32>) -> Option<Seq<i32>>,
)
    requires
        some <= count,
        unpacked_at(arena, plane, slots, some, rule) is Err,
    ensures
        unpacked_at(arena, plane, slots, count, rule) == unpacked_at(
            arena,
            plane,
            slots,
            some,
            rule,
        ),
    decreases count,
{
    if some < count {
        lemma_unpacked_stops(arena, plane, slots, some, (count - 1) as nat, rule);
    }
}

/// The macroblocks of a component, row by row.
pub open spec fn rastered_macroblocks(
    arena: ArenaModel,
    plane: CoefficientPlane,
    window: WindowModel,
    rule: spec_fn(HighPassKernel, Seq<i32>) -> Option<Seq<i32>>,
) -> Result<Seq<QuantizedMacroblock>, JxrError> {
    let places = window.width * window.height;
    let slots = placed(
        window.positions,
        window.width as int,
        places,
        plane.macroblock_offset as int,
        plane.macroblock_count as nat,
    );
    if places > usize::MAX {
        Err(JxrError::arithmetic("macroblock raster size"))
    } else if plane.macroblock_count != places {
        Err(
            JxrError::new(
                JxrErrorKind::InternalInvariant,
                "decoded component macroblock count",
            ),
        )
    } else if window.positions.len() != places {
        Err(JxrError::new(JxrErrorKind::InternalInvariant, "planned macroblock traversal"))
    } else if plane.macroblock_offset + plane.macroblock_count > usize::MAX {
        Err(JxrError::arithmetic("component metadata range"))
    } else if slots is Err {
        Err(slots->Err_0)
    } else {
        unpacked_at(arena, plane, slots->Ok_0, places as nat, rule)
    }
}

/// Puts the macroblocks of a component into their places.
fn place_macroblocks(
    positions: &Vec<(usize, usize)>,
    width: usize,
    offset: usize,
    count: usize,
    slots: &mut Vec<usize>,
) -> (result: Result<(), JxrError>)
    requires
        positions@.len() == count,
        offset + count <= usize::MAX,
    ensures
        match (
            result,
            placed(positions@, width as int, count as int, offset as int, count as nat),
        ) {
            (Ok(_), Ok(expected)) => final(slots)@ == expected,
            (Err(error), Err(expected)) => error == expected,
            _ => false,
        },
        result is Ok ==> final(slots)@.len() == count && forall|place: int|
            0 <= place < count ==> (#[trigger] final(slots)@[place]) == usize::MAX || offset
                <= final(slots)@[place] < offset + count,
{
    slots.clear();
    slots.reserve(count);
    for place in 0..count
        invariant
            slots@ == Seq::new(place as nat, |place: int| usize::MAX),
    {
        slots.push(usize::MAX);
        assert(slots@ =~= Seq::new((place + 1) as nat, |place: int| usize::MAX));
    }
    for index in 0..count
        invariant
            positions@.len() == count,
            offset + count <= usize::MAX,
            slots@.len() == count,
            placed(positions@, width as int, count as int, offset as int, index as nat) == Ok::<
                Seq<usize>,
                JxrError,
            >(slots@),
            forall|place: int|
                0 <= place < count ==> (#[trigger] slots@[place]) == usize::MAX || offset
                    <= slots@[place] < offset + count,
    {
        let (x, y) = positions[index];
        proof {
            assert(y * width >= 0) by (nonlinear_arith);
            if placed(
                positions@,
                width as int,
                count as int,
                offset as int,
                (index + 1) as nat,
            ) is Err {
                lemma_placed_stops(
                    positions@,
                    width as int,
                    count as int,
                    offset as int,
                    (index + 1) as nat,
                    count as nat,
                );
            }
        }
        let place: usize = match y.checked_mul(width) {
            Some(row) => match row.checked_add(x) {
                Some(place) => place,
                None => {
                    return Err(
                        JxrError::new(JxrErrorKind::InternalInvariant, "macroblock position"),
                    );
                },
            },
            None => {
                return Err(
                    JxrError::new(JxrErrorKind::InternalInvariant, "macroblock position"),
                );
            },
        };
        if place >= count {
            return Err(JxrError::new(JxrErrorKind::InternalInvariant, "macroblock position"));
        }
        if slots[place] != usize::MAX {
            return Err(
                JxrError::new(JxrErrorKind::InternalInvariant, "duplicate macroblock position"),
            );
        }
        slots.set(place, offset + index);
    }
    Ok(())
}

/// What raster buffers have room for, and how often they were large enough.
pub struct RasterModel {
    /// Macroblocks that there is room for.
    pub macroblock_room: usize,
    /// Places of macroblocks that there is room for.
    pub slot_room: usize,
    /// Times that both buffers were large enough when they were needed again.
    pub reuses: u64,
}

impl RasterModel {
    /// Buffers that hold nothing.
    pub open spec fn empty() -> RasterModel {
        RasterModel { macroblock_room: 0, slot_room: 0, reuses: 0 }
    }

    /// Whether both buffers are large enough for a number of macroblocks.
    pub open spec fn suffices(self, count: int) -> bool {
        self.macroblock_room >= count && self.slot_room >= count
    }

    /// Bytes that both buffers have room for.
    pub open spec fn bytes(self) -> int {
        self.macroblock_room * vstd::layout::size_of::<QuantizedMacroblock>() + self.slot_room
            * vstd::layout::size_of::<usize>()
    }
}

/// Whether the recorded rooms are those from before, or were raised to what buffers were found to
/// have room for.
pub open spec fn rooms_known(before: RasterModel, after: RasterModel) -> bool {
    &&& pipeline::room_grew::<QuantizedMacroblock>(before.macroblock_room, after.macroblock_room)
    &&& pipeline::room_grew::<usize>(before.slot_room, after.slot_room)
}

/// Whether raster buffers were used for a number of macroblocks: the counter went up where they
/// were large enough before, and they are large enough now.
pub open spec fn used(before: RasterModel, after: RasterModel, count: int) -> bool {
    &&& after.reuses == pipeline::counted(before.reuses, before.suffices(count))
    &&& after.suffices(count)
    &&& rooms_known(before, after)
}

/// Whether raster buffers count nothing new, and have given nothing back.
pub open spec fn spared(before: RasterModel, after: RasterModel) -> bool {
    &&& after.reuses == before.reuses
    &&& rooms_known(before, after)
}

/// Buffers for the macroblocks of a component in raster order.
#[derive(Debug)]
pub struct RasterWorkspace {
    macroblocks: Vec<QuantizedMacroblock>,
    macroblock_room: usize,
    slots: Vec<usize>,
    slot_room: usize,
    reuses: u64,
}

impl View for RasterWorkspace {
    type V = RasterModel;

    closed spec fn view(&self) -> RasterModel {
        RasterModel {
            macroblock_room: self.macroblock_room,
            slot_room: self.slot_room,
            reuses: self.reuses,
        }
    }
}

impl RasterWorkspace {
    /// The macroblocks that are held.
    pub closed spec fn held(&self) -> Seq<QuantizedMacroblock> {
        self.macroblocks@
    }

    /// Creates buffers that hold nothing.
    pub fn new() -> (workspace: Self)
        ensures
            workspace@ == RasterModel::empty(),
    {
        RasterWorkspace {
            macroblocks: Vec::new(),
            macroblock_room: 0,
            slots: Vec::new(),
            slot_room: 0,
            reuses: 0,
        }
    }

    /// Returns the macroblocks that are held.
    pub fn macroblocks(&self) -> (macroblocks: &[QuantizedMacroblock])
        ensures
            macroblocks@ == self.held(),
    {
        self.macroblocks.as_slice()
    }

    /// Returns how often both buffers were large enough when they were needed again.
    pub fn reuses(&self) -> (count: u64)
        ensures
            count == self@.reuses,
    {
        self.reuses
    }

    /// Returns the bytes retained by both buffers.
    pub fn retained_bytes(&self) -> (bytes: usize)
        ensures
            bytes == pipeline::capped(self@.bytes()),
    {
        proof {
            assert(self.macroblock_room * vstd::layout::size_of::<QuantizedMacroblock>() >= 0
                && self.slot_room * vstd::layout::size_of::<usize>() >= 0) by (nonlinear_arith);
        }
        saturating_product(
            self.macroblock_room,
            std::mem::size_of::<QuantizedMacroblock>(),
        ).saturating_add(saturating_product(self.slot_room, std::mem::size_of::<usize>()))
    }
}

/// Puts the macroblocks of a component into their places, and unpacks them in that order.
fn fill_macroblocks<P: Fn(HighPassKernel, [i32; 256]) -> Option<[i32; 256]>>(
    arena: &CoefficientArena,
    plane: &CoefficientPlane,
    window: &ReconstructionWindow,
    macroblocks: &mut Vec<QuantizedMacroblock>,
    slots: &mut Vec<usize>,
    prediction: &P,
) -> (result: Result<(), JxrError>)
    requires
        unpack::runnable(*prediction),
        arena@.describes(*plane),
        plane.block_columns * plane.block_rows <= 16,
        plane.macroblock_count == window.width * window.height,
        plane.macroblock_count == window.positions@.len(),
    ensures
        result is Ok ==> final(macroblocks)@.len() == plane.macroblock_count && final(slots)@.len()
            == plane.macroblock_count,
        forall|rule: spec_fn(HighPassKernel, Seq<i32>) -> Option<Seq<i32>>| #[trigger]
            unpack::predicts(*prediction, rule) ==> match (
                result,
                rastered_macroblocks(arena@, *plane, window@, rule),
            ) {
                (Ok(_), Ok(expected)) => final(macroblocks)@ == expected,
                (Err(error), Err(expected)) => error == expected,
                _ => false,
            },
{
    let width: usize = window.width as usize;
    let count: usize = plane.macroblock_count;
    macroblocks.clear();
    let offset: usize = plane.macroblock_offset;
    match offset.checked_add(count) {
        Some(_) => {},
        None => return Err(JxrError::arithmetic("component metadata range")),
    }
    place_macroblocks(&window.positions, width, offset, count, slots)?;
    for place in 0..count
        invariant
            unpack::runnable(*prediction),
            arena@.describes(*plane),
            plane.block_columns * plane.block_rows <= 16,
            offset == plane.macroblock_offset,
            count == plane.macroblock_count,
            slots@.len() == count,
            macroblocks@.len() == place,
            forall|place: int|
                0 <= place < count ==> (#[trigger] slots@[place]) == usize::MAX || offset
                    <= slots@[place] < offset + count,
            forall|rule: spec_fn(HighPassKernel, Seq<i32>) -> Option<Seq<i32>>| #[trigger]
                unpack::predicts(*prediction, rule) ==> rastered_macroblocks(
                    arena@,
                    *plane,
                    window@,
                    rule,
                ) == unpacked_at(arena@, *plane, slots@, count as nat, rule),
            forall|rule: spec_fn(HighPassKernel, Seq<i32>) -> Option<Seq<i32>>| #[trigger]
                unpack::predicts(*prediction, rule) ==> unpacked_at(
                    arena@,
                    *plane,
                    slots@,
                    place as nat,
                    rule,
                ) == Ok::<Seq<QuantizedMacroblock>, JxrError>(macroblocks@),
    {
        let index: usize = slots[place];
        proof {
            assert forall|rule: spec_fn(HighPassKernel, Seq<i32>) -> Option<Seq<i32>>| #[trigger]
                unpack::predicts(*prediction, rule) && unpacked_at(
                    arena@,
                    *plane,
                    slots@,
                    (place + 1) as nat,
                    rule,
                ) is Err implies unpacked_at(arena@, *plane, slots@, count as nat, rule)
                == unpacked_at(arena@, *plane, slots@, (place + 1) as nat, rule) by {
                lemma_unpacked_stops(
                    arena@,
                    *plane,
                    slots@,
                    (place + 1) as nat,
                    count as nat,
                    rule,
                );
            }
        }
        if index == usize::MAX {
            return Err(
                JxrError::new(JxrErrorKind::InternalInvariant, "missing macroblock position"),
            );
        }
        macroblocks.push(
            unpack_macroblock(arena, index, plane.block_columns, plane.block_rows, prediction)?,
        );
    }
    Ok(())
}

/// Unpacks the macroblocks of a component in raster order, and counts whether the buffers were
/// large enough.
pub(crate) fn raster_macroblocks<P: Fn(HighPassKernel, [i32; 256]) -> Option<[i32; 256]>>(
    arena: &CoefficientArena,
    plane: &CoefficientPlane,
    window: &ReconstructionWindow,
    workspace: &mut RasterWorkspace,
    prediction: &P,
) -> (result: Result<(), JxrError>)
    requires
        unpack::runnable(*prediction),
        arena@.describes(*plane),
        plane.block_columns * plane.block_rows <= 16,
    ensures
        result is Ok ==> used(old(workspace)@, final(workspace)@, window.height * window.width),
        result is Err ==> spared(old(workspace)@, final(workspace)@),
        forall|rule: spec_fn(HighPassKernel, Seq<i32>) -> Option<Seq<i32>>| #[trigger]
            unpack::predicts(*prediction, rule) ==> match (
                result,
                rastered_macroblocks(arena@, *plane, window@, rule),
            ) {
                (Ok(_), Ok(expected)) => final(workspace).held() == expected,
                (Err(error), Err(expected)) => error == expected,
                _ => false,
            },
{
    let width: usize = window.width as usize;
    let height: usize = window.height as usize;
    let count: usize = match width.checked_mul(height) {
        Some(count) => count,
        None => return Err(JxrError::arithmetic("macroblock raster size")),
    };
    assert(width * height == height * width) by (nonlinear_arith);
    if plane.macroblock_count != count {
        return Err(
            JxrError::new(
                JxrErrorKind::InternalInvariant,
                "decoded component macroblock count",
            ),
        );
    }
    if window.positions.len() != count {
        return Err(
            JxrError::new(JxrErrorKind::InternalInvariant, "planned macroblock traversal"),
        );
    }
    let reused: bool = workspace.macroblock_room >= count && workspace.slot_room >= count;
    let filled: Result<(), JxrError> = fill_macroblocks(
        arena,
        plane,
        window,
        &mut workspace.macroblocks,
        &mut workspace.slots,
        prediction,
    );
    workspace.macroblock_room = grown(workspace.macroblock_room, &workspace.macroblocks);
    workspace.slot_room = grown(workspace.slot_room, &workspace.slots);
    filled?;
    if reused && workspace.reuses < u64::MAX {
        workspace.reuses = workspace.reuses + 1;
    }
    Ok(())
}

/// How many of the first places are taken.
spec fn taken(slots: Seq<usize>, count: nat) -> nat
    decreases count,
{
    if count == 0 {
        0
    } else if slots[count - 1] == usize::MAX {
        taken(slots, (count - 1) as nat)
    } else {
        taken(slots, (count - 1) as nat) + 1
    }
}

/// Taking a free place adds one to the places that are taken.
proof fn lemma_taking_a_place(slots: Seq<usize>, place: int, index: usize, count: nat)
    requires
        0 <= place < slots.len(),
        count <= slots.len(),
        slots[place] == usize::MAX,
        index != usize::MAX,
    ensures
        taken(slots.update(place, index), count) == taken(slots, count) + if place < count {
            1int
        } else {
            0
        },
    decreases count,
{
    if count > 0 {
        lemma_taking_a_place(slots, place, index, (count - 1) as nat);
    }
}

/// Where all places are taken, each one is.
proof fn lemma_all_taken(slots: Seq<usize>, count: nat)
    ensures
        taken(slots, count) <= count,
        taken(slots, count) == count ==> forall|place: int|
            0 <= place < count ==> #[trigger] slots[place] != usize::MAX,
    decreases count,
{
    if count > 0 {
        lemma_all_taken(slots, (count - 1) as nat);
    }
}

/// There are as many places taken as macroblocks placed.
proof fn lemma_taken(
    positions: Seq<(usize, usize)>,
    width: int,
    places: nat,
    offset: int,
    count: nat,
)
    requires
        0 <= offset,
        0 <= width,
        offset + count <= usize::MAX,
        placed(positions, width, places as int, offset, count) is Ok,
    ensures
        placed(positions, width, places as int, offset, count)->Ok_0.len() == places,
        taken(placed(positions, width, places as int, offset, count)->Ok_0, places) == count,
    decreases count,
{
    if count == 0 {
        lemma_none_taken(places, places);
    } else {
        let (x, y) = positions[count - 1];
        lemma_taken(positions, width, places, offset, (count - 1) as nat);
        assert(y * width >= 0) by (nonlinear_arith)
            requires
                y >= 0,
                width >= 0,
        ;
        lemma_taking_a_place(
            placed(positions, width, places as int, offset, (count - 1) as nat)->Ok_0,
            y * width + x,
            (offset + count - 1) as usize,
            places,
        );
    }
}

/// At first no place is taken.
proof fn lemma_none_taken(places: nat, count: nat)
    requires
        count <= places,
    ensures
        taken(Seq::new(places, |place: int| usize::MAX), count) == 0,
    decreases count,
{
    if count > 0 {
        lemma_none_taken(places, (count - 1) as nat);
    }
}

/// Where as many macroblocks are placed as there are places, and no two in one place, no place
/// stays empty.
pub proof fn lemma_no_place_stays_empty(
    positions: Seq<(usize, usize)>,
    width: int,
    places: nat,
    offset: int,
)
    requires
        0 <= offset,
        0 <= width,
        offset + places <= usize::MAX,
        placed(positions, width, places as int, offset, places) is Ok,
    ensures
        forall|place: int|
            0 <= place < places ==> #[trigger] placed(
                positions,
                width,
                places as int,
                offset,
                places,
            )->Ok_0[place] != usize::MAX,
{
    lemma_taken(positions, width, places, offset, places);
    lemma_all_taken(placed(positions, width, places as int, offset, places)->Ok_0, places);
}

} // verus!
