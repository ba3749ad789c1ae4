//! Adaptive inverse scans.

use super::error::EntropyError;
use vstd::prelude::*;

verus! {

/// The initial order of the low-pass scan and of the horizontal high-pass scan.
pub const SCAN_ORDER_0: [u8; 16] = [0, 4, 1, 5, 8, 2, 9, 6, 12, 3, 10, 13, 7, 14, 11, 15];

/// The initial order of the vertical high-pass scan.
pub const SCAN_ORDER_1: [u8; 16] = [0, 1, 2, 5, 4, 3, 6, 9, 8, 7, 12, 15, 13, 10, 11, 14];

/// The initial totals of every scan.
pub const SCAN_TOTALS: [i32; 16] = [0, 32, 30, 28, 26, 24, 22, 20, 18, 16, 14, 12, 10, 8, 6, 4];

/// Whether the order visits each of the sixteen positions once, the first position first.
pub open spec fn is_scan_order(order: Seq<u8>) -> bool {
    &&& order.len() == 16
    &&& order[0] == 0
    &&& forall|index: int| 0 <= index < 16 ==> #[trigger] order[index] < 16
    &&& forall|left: int, right: int|
        0 <= left < right < 16 ==> #[trigger] order[left] != #[trigger] order[right]
}

/// A sequence with two neighbours exchanged.
pub open spec fn exchanged<T>(values: Seq<T>, index: int) -> Seq<T> {
    values.update(index, values[index - 1]).update(index - 1, values[index])
}

/// The error of a scan index that names no coefficient but the first or none at all.
pub open spec fn scan_index_error(scan_index: u8) -> EntropyError {
    EntropyError::InvalidParameter { parameter: "adaptive scan index", value: scan_index as i64 }
}

/// Whether the count of a scan index overtakes that of its predecessor when it grows by one.
pub open spec fn overtakes(totals: Seq<i32>, index: int) -> bool {
    index > 1 && totals[index] + 1 > totals[index - 1]
}

/// The scan order after a coefficient was placed.
pub open spec fn order_after(order: Seq<u8>, totals: Seq<i32>, index: int) -> Seq<u8> {
    if overtakes(totals, index) {
        exchanged(order, index)
    } else {
        order
    }
}

/// The totals after a coefficient was placed.
pub open spec fn totals_after(totals: Seq<i32>, index: int) -> Seq<i32> {
    let counted = totals.update(index, (totals[index] + 1) as i32);
    if overtakes(totals, index) {
        exchanged(counted, index)
    } else {
        counted
    }
}

/// Placing coefficients never turns a scan order into anything but a scan order.
pub proof fn lemma_order_after(order: Seq<u8>, totals: Seq<i32>, index: int)
    requires
        is_scan_order(order),
        1 <= index < 16,
    ensures
        is_scan_order(order_after(order, totals, index)),
{
    if overtakes(totals, index) {
        let next = exchanged(order, index);
        assert(next[index] == order[index - 1]);
        assert(next[index - 1] == order[index]);
    }
}

pub(crate) fn place_and_adapt(
    order: &mut [u8; 16],
    totals: &mut [i32; 16],
    output: &mut [i32; 16],
    scan_index: u8,
    value: i32,
) -> (result: Result<(), EntropyError>)
    requires
        is_scan_order(old(order)@),
        1 <= scan_index <= 15 ==> old(totals)[scan_index as int] < i32::MAX,
    ensures
        is_scan_order(final(order)@),
        if 1 <= scan_index <= 15 {
            &&& result is Ok
            &&& final(output)@ == old(output)@.update(old(order)[scan_index as int] as int, value)
            &&& final(order)@ == order_after(old(order)@, old(totals)@, scan_index as int)
            &&& final(totals)@ == totals_after(old(totals)@, scan_index as int)
        } else {
            &&& result == Err::<(), EntropyError>(scan_index_error(scan_index))
            &&& *final(output) == *old(output)
            &&& *final(order) == *old(order)
            &&& *final(totals) == *old(totals)
        },
{
    if !(1 <= scan_index && scan_index <= 15) {
        return Err(
            EntropyError::InvalidParameter {
                parameter: "adaptive scan index",
                value: scan_index as i64,
            },
        );
    }
    let index: usize = scan_index as usize;
    let position: usize = order[index] as usize;
    output[position] = value;
    totals[index] = totals[index] + 1;
    proof {
        lemma_order_after(old(order)@, old(totals)@, index as int);
    }
    if index > 1 && totals[index] > totals[index - 1] {
        let total: i32 = totals[index];
        totals[index] = totals[index - 1];
        totals[index - 1] = total;
        let entry: u8 = order[index];
        order[index] = order[index - 1];
        order[index - 1] = entry;
    }
    Ok(())
}

/// Tile-local adaptive inverse scan for LP coefficients.
#[derive(Debug, PartialEq, Eq)]
pub struct AdaptiveLpScan {
    /// The coefficient position of each scan index.
    pub order: [u8; 16],
    /// How often each scan index was used, on top of its initial total.
    pub totals: [i32; 16],
}

impl Clone for AdaptiveLpScan {
    fn clone(&self) -> (scan: Self)
        ensures
            scan == *self,
    {
        AdaptiveLpScan { order: self.order, totals: self.totals }
    }
}

impl Default for AdaptiveLpScan {
    fn default() -> (scan: Self)
        ensures
            scan == AdaptiveLpScan::initial(),
            scan.wf(),
    {
        AdaptiveLpScan::new()
    }
}

impl AdaptiveLpScan {
    /// The scan at the start of a tile.
    pub open spec fn initial() -> AdaptiveLpScan {
        AdaptiveLpScan { order: SCAN_ORDER_0, totals: SCAN_TOTALS }
    }

    /// Whether the order visits each position once.
    pub open spec fn wf(self) -> bool {
        is_scan_order(self.order@)
    }

    /// Creates the initial scan.
    #[must_use]
    pub fn new() -> (scan: Self)
        ensures
            scan == AdaptiveLpScan::initial(),
            scan.wf(),
    {
        proof {
            lemma_initial_orders();
        }
        AdaptiveLpScan { order: SCAN_ORDER_0, totals: SCAN_TOTALS }
    }

    /// Restores scan order and totals at a tile boundary.
    pub fn reset_tile(&mut self)
        ensures
            *final(self) == AdaptiveLpScan::initial(),
            final(self).wf(),
    {
        *self = AdaptiveLpScan::new();
    }

    /// Restores only the totals at a 16-macroblock column boundary.
    pub fn reset_totals(&mut self)
        ensures
            final(self).order == old(self).order,
            final(self).totals == SCAN_TOTALS,
    {
        self.totals = SCAN_TOTALS;
    }

    /// Places one parsed coefficient and performs the adjacent scan update.
    pub fn place(&mut self, output: &mut [i32; 16], scan_index: u8, value: i32) -> (result: Result<
        (),
        EntropyError,
    >)
        requires
            old(self).wf(),
            1 <= scan_index <= 15 ==> old(self).totals[scan_index as int] < i32::MAX,
        ensures
            final(self).wf(),
            if 1 <= scan_index <= 15 {
                &&& result is Ok
                &&& final(output)@ == old(output)@.update(
                    old(self).order[scan_index as int] as int,
                    value,
                )
                &&& final(self).order@ == order_after(
                    old(self).order@,
                    old(self).totals@,
                    scan_index as int,
                )
                &&& final(self).totals@ == totals_after(old(self).totals@, scan_index as int)
            } else {
                &&& result == Err::<(), EntropyError>(scan_index_error(scan_index))
                &&& *final(output) == *old(output)
                &&& *final(self) == *old(self)
            },
    {
        place_and_adapt(&mut self.order, &mut self.totals, output, scan_index, value)
    }

    /// Returns the current inverse-scan permutation.
    #[must_use]
    pub fn order(&self) -> (order: &[u8; 16])
        ensures
            *order == self.order,
    {
        &self.order
    }
}

/// Both initial orders visit each position once.
pub proof fn lemma_initial_orders()
    ensures
        is_scan_order(SCAN_ORDER_0@),
        is_scan_order(SCAN_ORDER_1@),
{
}

/// HP prediction direction selecting one of the two adaptive scans.
#[derive(Debug, Clone, Copy, PartialEq, Eq, Structural)]
pub enum HpScanDirection {
    /// Prediction from the left, using the horizontal scan.
    Horizontal,
    /// Prediction from the top, using the vertical scan.
    Vertical,
}

/// Tile-local horizontal and vertical inverse scans for HP coefficients.
#[derive(Debug, PartialEq, Eq)]
pub struct AdaptiveHpScan {
    /// The coefficient position of each index of the horizontal scan.
    pub horizontal_order: [u8; 16],
    /// The coefficient position of each index of the vertical scan.
    pub vertical_order: [u8; 16],
    /// The totals of the horizontal scan.
    pub horizontal_totals: [i32; 16],
    /// The totals of the vertical scan.
    pub vertical_totals: [i32; 16],
}

impl Clone for AdaptiveHpScan {
    fn clone(&self) -> (scan: Self)
        ensures
            scan == *self,
    {
        AdaptiveHpScan {
            horizontal_order: self.horizontal_order,
            vertical_order: self.vertical_order,
            horizontal_totals: self.horizontal_totals,
            vertical_totals: self.vertical_totals,
        }
    }
}

impl Default for AdaptiveHpScan {
    fn default() -> (scan: Self)
        ensures
            scan == AdaptiveHpScan::initial(),
            scan.wf(),
    {
        AdaptiveHpScan::new()
    }
}

impl AdaptiveHpScan {
    /// Both scans at the start of a tile.
    pub open spec fn initial() -> AdaptiveHpScan {
        AdaptiveHpScan {
            horizontal_order: SCAN_ORDER_0,
            vertical_order: SCAN_ORDER_1,
            horizontal_totals: SCAN_TOTALS,
            vertical_totals: SCAN_TOTALS,
        }
    }

    /// Whether both orders visit each position once.
    pub open spec fn wf(self) -> bool {
        is_scan_order(self.horizontal_order@) && is_scan_order(self.vertical_order@)
    }

    /// The scan order for a direction.
    pub open spec fn order_of(self, direction: HpScanDirection) -> [u8; 16] {
        match direction {
            HpScanDirection::Horizontal => self.horizontal_order,
            HpScanDirection::Vertical => self.vertical_order,
        }
    }

    /// The totals for a direction.
    pub open spec fn totals_of(self, direction: HpScanDirection) -> [i32; 16] {
        match direction {
            HpScanDirection::Horizontal => self.horizontal_totals,
            HpScanDirection::Vertical => self.vertical_totals,
        }
    }

    /// The other direction.
    pub open spec fn other(direction: HpScanDirection) -> HpScanDirection {
        match direction {
            HpScanDirection::Horizontal => HpScanDirection::Vertical,
            HpScanDirection::Vertical => HpScanDirection::Horizontal,
        }
    }

    /// Creates both initial scans.
    #[must_use]
    pub fn new() -> (scan: Self)
        ensures
            scan == AdaptiveHpScan::initial(),
            scan.wf(),
    {
        proof {
            lemma_initial_orders();
        }
        AdaptiveHpScan {
            horizontal_order: SCAN_ORDER_0,
            vertical_order: SCAN_ORDER_1,
            horizontal_totals: SCAN_TOTALS,
            vertical_totals: SCAN_TOTALS,
        }
    }

    /// Restores both scan orders and totals at a tile boundary.
    pub fn reset_tile(&mut self)
        ensures
            *final(self) == AdaptiveHpScan::initial(),
            final(self).wf(),
    {
        *self = AdaptiveHpScan::new();
    }

    /// Restores only both totals lists at a 16-macroblock column boundary.
    pub fn reset_totals(&mut self)
        ensures
            final(self).horizontal_order == old(self).horizontal_order,
            final(self).vertical_order == old(self).vertical_order,
            final(self).horizontal_totals == SCAN_TOTALS,
            final(self).vertical_totals == SCAN_TOTALS,
    {
        self.horizontal_totals = SCAN_TOTALS;
        self.vertical_totals = SCAN_TOTALS;
    }

    /// Places one parsed coefficient into the selected HP scan.
    pub fn place(
        &mut self,
        direction: HpScanDirection,
        output: &mut [i32; 16],
        scan_index: u8,
        value: i32,
    ) -> (result: Result<(), EntropyError>)
        requires
            old(self).wf(),
            1 <= scan_index <= 15 ==> old(self).totals_of(direction)[scan_index as int] < i32::MAX,
        ensures
            final(self).wf(),
            final(self).order_of(AdaptiveHpScan::other(direction)) == old(self).order_of(
                AdaptiveHpScan::other(direction),
            ),
            final(self).totals_of(AdaptiveHpScan::other(direction)) == old(self).totals_of(
                AdaptiveHpScan::other(direction),
            ),
            if 1 <= scan_index <= 15 {
                &&& result is Ok
                &&& final(output)@ == old(output)@.update(
                    old(self).order_of(direction)[scan_index as int] as int,
                    value,
                )
                &&& final(self).order_of(direction)@ == order_after(
                    old(self).order_of(direction)@,
                    old(self).totals_of(direction)@,
                    scan_index as int,
                )
                &&& final(self).totals_of(direction)@ == totals_after(
                    old(self).totals_of(direction)@,
                    scan_index as int,
                )
            } else {
                &&& result == Err::<(), EntropyError>(scan_index_error(scan_index))
                &&& *final(output) == *old(output)
                &&& *final(self) == *old(self)
            },
    {
        match direction {
            HpScanDirection::Horizontal => place_and_adapt(
                &mut self.horizontal_order,
                &mut self.horizontal_totals,
                output,
                scan_index,
                value,
            ),
            HpScanDirection::Vertical => place_and_adapt(
                &mut self.vertical_order,
                &mut self.vertical_totals,
                output,
                scan_index,
                value,
            ),
        }
    }

    /// Returns the current inverse-scan permutation for `direction`.
    #[must_use]
    pub fn order(&self, direction: HpScanDirection) -> (order: &[u8; 16])
        ensures
            *order == self.order_of(direction),
    {
        match direction {
            HpScanDirection::Horizontal => &self.horizontal_order,
            HpScanDirection::Vertical => &self.vertical_order,
        }
    }
}

} // verus!
