//! Adaptive code-table selection and tile-owned entropy state.

use super::coefficients::FrequencyBand;
use super::model::CoefficientModel;
use super::scan::{AdaptiveHpScan, AdaptiveLpScan};
use vstd::prelude::*;

verus! {

/// The change of the discriminant for each symbol of the absolute-level code.
pub const ABS_LEVEL_DELTA: [i8; 7] = [1, 0, -1, -1, -1, -1, -1];

/// The change of a discriminant for each first-index symbol, by delta table.
pub const FIRST_INDEX_DELTA: [[i8; 12]; 4] = [
    [1, 1, 1, 1, 1, 0, 0, -1, 2, 1, 0, 0],
    [2, 2, -1, -1, -1, 0, -2, -1, 0, 0, -2, -1],
    [-1, 1, 0, 2, 0, 0, 0, 0, -2, 0, 1, 1],
    [0, 1, 0, 1, -2, 0, -1, -1, -2, -1, -2, -2],
];

/// The change of a discriminant for each index symbol, by delta table.
pub const INDEX_DELTA: [[i8; 6]; 3] = [
    [-1, 1, 1, 1, 0, 1],
    [-2, 0, 0, 2, 0, 0],
    [-1, -1, 0, 1, -2, 0],
];

/// The largest table of the first-index code.
pub const FIRST_INDEX_LAST_TABLE: u8 = 4;

/// The largest table of the index code.
pub const INDEX_LAST_TABLE: u8 = 3;

/// The selector of one adaptive code table.
#[derive(Debug, Clone, Copy, PartialEq, Eq)]
pub struct AdaptiveVlc {
    /// Evidence for a smaller and for a larger table.
    pub discrim: [i32; 2],
    /// The selected code table.
    pub table_index: u8,
    /// The delta tables that feed the two discriminants.
    pub delta_index: [u8; 2],
}

/// The discriminant kept within 64 of zero.
pub open spec fn clamped(value: i32) -> i32 {
    if value < -64 {
        (-64) as i32
    } else if value > 64 {
        64
    } else {
        value
    }
}

fn clamp_discriminant(value: i32) -> (result: i32)
    ensures
        result == clamped(value),
{
    if value < -64 {
        -64
    } else if value > 64 {
        64
    } else {
        value
    }
}

impl AdaptiveVlc {
    /// A selector between two tables, at the first.
    pub open spec fn initial_of_two() -> AdaptiveVlc {
        AdaptiveVlc { discrim: [0, 0], table_index: 0, delta_index: [0, 0] }
    }

    /// A selector between more than two tables, at the second.
    pub open spec fn initial_of_many() -> AdaptiveVlc {
        AdaptiveVlc { discrim: [0, 0], table_index: 1, delta_index: [0, 1] }
    }

    /// Whether the selected table and the delta tables exist in a family whose last table is
    /// `last`.
    pub open spec fn within(self, last: u8) -> bool {
        &&& self.table_index <= last
        &&& self.delta_index[0] < last
        &&& self.delta_index[1] < last
    }

    /// Whether both discriminants can still move by `distance` either way.
    pub open spec fn headroom(self, distance: int) -> bool {
        &&& i32::MIN + distance <= self.discrim[0] <= i32::MAX - distance
        &&& i32::MIN + distance <= self.discrim[1] <= i32::MAX - distance
    }

    /// The selector after its discriminants moved by `first` and `second`.
    pub open spec fn shifted(self, first: int, second: int) -> AdaptiveVlc {
        AdaptiveVlc {
            discrim: [(self.discrim[0] + first) as i32, (self.discrim[1] + second) as i32],
            table_index: self.table_index,
            delta_index: self.delta_index,
        }
    }

    /// The selector after an absolute-level symbol.
    pub open spec fn after_abs_level(self, symbol: u8) -> AdaptiveVlc {
        self.shifted(ABS_LEVEL_DELTA[symbol as int] as int, 0)
    }

    /// The selector after a first-index symbol.
    pub open spec fn after_first_index(self, symbol: u8) -> AdaptiveVlc {
        self.shifted(
            FIRST_INDEX_DELTA[self.delta_index[0] as int][symbol as int] as int,
            FIRST_INDEX_DELTA[self.delta_index[1] as int][symbol as int] as int,
        )
    }

    /// The selector after an index symbol.
    pub open spec fn after_index(self, symbol: u8) -> AdaptiveVlc {
        self.shifted(
            INDEX_DELTA[self.delta_index[0] as int][symbol as int] as int,
            INDEX_DELTA[self.delta_index[1] as int][symbol as int] as int,
        )
    }

    /// The selector of one of two tables after adaptation.
    pub open spec fn adapted_of_two(self) -> AdaptiveVlc {
        if self.discrim[0] < -8 && self.table_index != 0 {
            AdaptiveVlc {
                discrim: [0, self.discrim[1]],
                table_index: (self.table_index - 1) as u8,
                delta_index: self.delta_index,
            }
        } else if self.discrim[0] > 8 && self.table_index != 1 {
            AdaptiveVlc {
                discrim: [0, self.discrim[1]],
                table_index: (self.table_index + 1) as u8,
                delta_index: self.delta_index,
            }
        } else {
            AdaptiveVlc {
                discrim: [clamped(self.discrim[0]), self.discrim[1]],
                table_index: self.table_index,
                delta_index: self.delta_index,
            }
        }
    }

    /// The selector that has just moved to `table` in a family whose last table is `last`.
    pub open spec fn moved_to(table: u8, last: u8) -> AdaptiveVlc {
        AdaptiveVlc {
            discrim: [0, 0],
            table_index: table,
            delta_index: if table == last {
                [(table - 1) as u8, (table - 1) as u8]
            } else if table == 0 {
                [0, 0]
            } else {
                [(table - 1) as u8, table]
            },
        }
    }

    /// The selector of one of more than two tables after adaptation.
    pub open spec fn adapted_of_many(self, last: u8) -> AdaptiveVlc {
        if self.discrim[0] < -8 && self.table_index != 0 {
            AdaptiveVlc::moved_to((self.table_index - 1) as u8, last)
        } else if self.discrim[1] > 8 && self.table_index != last {
            AdaptiveVlc::moved_to((self.table_index + 1) as u8, last)
        } else {
            AdaptiveVlc {
                discrim: [clamped(self.discrim[0]), clamped(self.discrim[1])],
                table_index: self.table_index,
                delta_index: self.delta_index,
            }
        }
    }

    /// Creates the selector of a two-table code.
    pub fn two_tables() -> (selector: Self)
        ensures
            selector == AdaptiveVlc::initial_of_two(),
            selector.within(1),
    {
        AdaptiveVlc { discrim: [0, 0], table_index: 0, delta_index: [0, 0] }
    }

    /// Creates the selector of a code with more than two tables.
    pub fn multiple_tables() -> (selector: Self)
        ensures
            selector == AdaptiveVlc::initial_of_many(),
            forall|last: u8| last >= 2 ==> #[trigger] selector.within(last),
    {
        AdaptiveVlc { discrim: [0, 0], table_index: 1, delta_index: [0, 1] }
    }

    /// Returns the selected table.
    pub fn table_index(self) -> (table: usize)
        ensures
            table == self.table_index,
    {
        self.table_index as usize
    }

    /// Moves the first discriminant by the entry of `delta` for the symbol.
    pub fn observe_one(&mut self, symbol: u8, delta: &[i8])
        requires
            symbol < delta@.len(),
            i32::MIN <= old(self).discrim[0] + delta@[symbol as int] <= i32::MAX,
        ensures
            *final(self) == old(self).shifted(delta@[symbol as int] as int, 0),
    {
        self.discrim[0] = self.discrim[0] + delta[symbol as usize] as i32;
        assert(self.discrim =~= old(self).shifted(delta@[symbol as int] as int, 0).discrim);
    }

    /// Moves both discriminants by the entries of their delta tables for the symbol.
    pub fn observe_two(&mut self, symbol: u8, delta: &[[i8; 12]; 4])
        requires
            symbol < 12,
            old(self).delta_index[0] < 4,
            old(self).delta_index[1] < 4,
            i32::MIN <= old(self).discrim[0]
                + delta[old(self).delta_index[0] as int][symbol as int] <= i32::MAX,
            i32::MIN <= old(self).discrim[1]
                + delta[old(self).delta_index[1] as int][symbol as int] <= i32::MAX,
        ensures
            *final(self) == old(self).shifted(
                delta[old(self).delta_index[0] as int][symbol as int] as int,
                delta[old(self).delta_index[1] as int][symbol as int] as int,
            ),
    {
        let first: i8 = delta[self.delta_index[0] as usize][symbol as usize];
        let second: i8 = delta[self.delta_index[1] as usize][symbol as usize];
        self.discrim[0] = self.discrim[0] + first as i32;
        self.discrim[1] = self.discrim[1] + second as i32;
        assert(self.discrim =~= old(self).shifted(first as int, second as int).discrim);
    }

    /// Moves both discriminants by the index deltas of the symbol.
    pub fn observe_two_index(&mut self, symbol: u8)
        requires
            symbol < 6,
            old(self).delta_index[0] < 3,
            old(self).delta_index[1] < 3,
            old(self).headroom(2),
        ensures
            *final(self) == old(self).after_index(symbol),
    {
        let first: i8 = INDEX_DELTA[self.delta_index[0] as usize][symbol as usize];
        let second: i8 = INDEX_DELTA[self.delta_index[1] as usize][symbol as usize];
        proof {
            lemma_index_delta_bound(self.delta_index[0] as int, symbol as int);
            lemma_index_delta_bound(self.delta_index[1] as int, symbol as int);
        }
        self.discrim[0] = self.discrim[0] + first as i32;
        self.discrim[1] = self.discrim[1] + second as i32;
        assert(self.discrim =~= old(self).shifted(first as int, second as int).discrim);
    }

    /// Switches between two tables once the evidence is more than 8.
    pub fn adapt_one(&mut self)
        requires
            old(self).table_index <= 1,
        ensures
            *final(self) == old(self).adapted_of_two(),
            final(self).table_index <= 1,
    {
        if self.discrim[0] < -8 && self.table_index != 0 {
            self.table_index = self.table_index - 1;
            self.discrim[0] = 0;
        } else if self.discrim[0] > 8 && self.table_index != 1 {
            self.table_index = self.table_index + 1;
            self.discrim[0] = 0;
        } else {
            self.discrim[0] = clamp_discriminant(self.discrim[0]);
        }
        assert(self.discrim =~= old(self).adapted_of_two().discrim);
    }

    /// Switches to a neighbouring table once the evidence is more than 8.
    pub fn adapt_two(&mut self, max_table_index: u8)
        requires
            old(self).within(max_table_index),
        ensures
            *final(self) == old(self).adapted_of_many(max_table_index),
            final(self).within(max_table_index),
    {
        let changed = if self.discrim[0] < -8 && self.table_index != 0 {
            self.table_index = self.table_index - 1;
            true
        } else if self.discrim[1] > 8 && self.table_index != max_table_index {
            self.table_index = self.table_index + 1;
            true
        } else {
            false
        };
        if changed {
            self.discrim = [0, 0];
            if self.table_index == max_table_index {
                self.delta_index = [self.table_index - 1, self.table_index - 1];
            } else if self.table_index == 0 {
                self.delta_index = [0, 0];
            } else {
                self.delta_index = [self.table_index - 1, self.table_index];
            }
        } else {
            self.discrim[0] = clamp_discriminant(self.discrim[0]);
            self.discrim[1] = clamp_discriminant(self.discrim[1]);
        }
        assert(self.discrim =~= old(self).adapted_of_many(max_table_index).discrim);
        assert(self.delta_index =~= old(self).adapted_of_many(max_table_index).delta_index);
    }
}

/// Every entry of the absolute-level deltas is at most 1 in magnitude.
pub proof fn lemma_abs_level_delta_bound(symbol: int)
    requires
        0 <= symbol < 7,
    ensures
        -1 <= ABS_LEVEL_DELTA[symbol] <= 1,
{
}

/// Every entry of the first-index deltas is at most 2 in magnitude.
pub proof fn lemma_first_index_delta_bound(table: int, symbol: int)
    requires
        0 <= table < 4,
        0 <= symbol < 12,
    ensures
        -2 <= FIRST_INDEX_DELTA[table][symbol] <= 2,
{
}

/// Every entry of the index deltas is at most 2 in magnitude.
pub proof fn lemma_index_delta_bound(table: int, symbol: int)
    requires
        0 <= table < 3,
        0 <= symbol < 6,
    ensures
        -2 <= INDEX_DELTA[table][symbol] <= 2,
{
}

/// Adaptive absolute-level state for DC luma and chroma symbols.
#[derive(Debug, PartialEq, Eq)]
pub struct DcVlcState {
    /// The absolute-level selectors for luma and chroma.
    pub abs_level: [AdaptiveVlc; 2],
}

impl Clone for DcVlcState {
    fn clone(&self) -> (state: Self)
        ensures
            state == *self,
    {
        DcVlcState { abs_level: self.abs_level }
    }
}

impl Default for DcVlcState {
    fn default() -> (state: Self)
        ensures
            state == DcVlcState::initial(),
            state.wf(),
    {
        DcVlcState::new()
    }
}

impl DcVlcState {
    /// The state at the start of a tile.
    pub open spec fn initial() -> DcVlcState {
        DcVlcState {
            abs_level: [AdaptiveVlc::initial_of_two(), AdaptiveVlc::initial_of_two()],
        }
    }

    /// Every selector names an existing table.
    pub open spec fn wf(self) -> bool {
        self.abs_level[0].table_index <= 1 && self.abs_level[1].table_index <= 1
    }

    /// Whether every discriminant can still move by `distance`.
    pub open spec fn headroom(self, distance: int) -> bool {
        self.abs_level[0].headroom(distance) && self.abs_level[1].headroom(distance)
    }

    /// The state after a context boundary.
    pub open spec fn adapted(self) -> DcVlcState {
        DcVlcState {
            abs_level: [self.abs_level[0].adapted_of_two(), self.abs_level[1].adapted_of_two()],
        }
    }

    /// Returns the state for the start of a tile.
    #[must_use]
    pub fn new() -> (state: Self)
        ensures
            state == DcVlcState::initial(),
            state.wf(),
    {
        DcVlcState { abs_level: [AdaptiveVlc::two_tables(), AdaptiveVlc::two_tables()] }
    }

    /// Reinitializes this state at the first macroblock of a tile.
    pub fn reset_tile(&mut self)
        ensures
            *final(self) == DcVlcState::initial(),
            final(self).wf(),
    {
        *self = DcVlcState::new();
    }

    /// Adapts both DC code table selectors at a context boundary.
    pub fn adapt(&mut self)
        requires
            old(self).wf(),
        ensures
            *final(self) == old(self).adapted(),
            final(self).wf(),
    {
        self.abs_level[0].adapt_one();
        self.abs_level[1].adapt_one();
        assert(self.abs_level =~= old(self).adapted().abs_level);
    }
}

/// The array place of luma (`false`) or chroma (`true`), and of a clear or a set context.
pub open spec fn place(flag: bool) -> int {
    if flag {
        1
    } else {
        0
    }
}

/// Returns the array place of a flag.
pub fn flag_index(flag: bool) -> (index: usize)
    ensures
        index == place(flag),
        index < 2,
{
    if flag {
        1
    } else {
        0
    }
}

/// Adaptive first-index, index and absolute-level state for one AC band.
#[derive(Debug, PartialEq, Eq)]
pub struct AcVlcState {
    /// The first-index selectors for luma and chroma.
    pub first_index: [AdaptiveVlc; 2],
    /// The index selectors for luma and chroma, by context.
    pub index: [[AdaptiveVlc; 2]; 2],
    /// The absolute-level selectors by context.
    pub abs_level: [AdaptiveVlc; 2],
}

impl Clone for AcVlcState {
    fn clone(&self) -> (state: Self)
        ensures
            state == *self,
    {
        AcVlcState {
            first_index: self.first_index,
            index: self.index,
            abs_level: self.abs_level,
        }
    }
}

impl Default for AcVlcState {
    fn default() -> (state: Self)
        ensures
            state == AcVlcState::initial(),
            state.wf(),
    {
        AcVlcState::new()
    }
}

impl AcVlcState {
    /// The state at the start of a tile.
    pub open spec fn initial() -> AcVlcState {
        AcVlcState {
            first_index: [AdaptiveVlc::initial_of_many(), AdaptiveVlc::initial_of_many()],
            index: [
                [AdaptiveVlc::initial_of_many(), AdaptiveVlc::initial_of_many()],
                [AdaptiveVlc::initial_of_many(), AdaptiveVlc::initial_of_many()],
            ],
            abs_level: [AdaptiveVlc::initial_of_two(), AdaptiveVlc::initial_of_two()],
        }
    }

    /// Every selector names existing tables.
    pub open spec fn wf(self) -> bool {
        &&& self.first_index[0].within(FIRST_INDEX_LAST_TABLE)
        &&& self.first_index[1].within(FIRST_INDEX_LAST_TABLE)
        &&& self.index[0][0].within(INDEX_LAST_TABLE)
        &&& self.index[0][1].within(INDEX_LAST_TABLE)
        &&& self.index[1][0].within(INDEX_LAST_TABLE)
        &&& self.index[1][1].within(INDEX_LAST_TABLE)
        &&& self.abs_level[0].table_index <= 1
        &&& self.abs_level[1].table_index <= 1
    }

    /// Whether every discriminant can still move by `distance`.
    pub open spec fn headroom(self, distance: int) -> bool {
        &&& self.first_index[0].headroom(distance)
        &&& self.first_index[1].headroom(distance)
        &&& self.index[0][0].headroom(distance)
        &&& self.index[0][1].headroom(distance)
        &&& self.index[1][0].headroom(distance)
        &&& self.index[1][1].headroom(distance)
        &&& self.abs_level[0].headroom(distance)
        &&& self.abs_level[1].headroom(distance)
    }

    /// The state after a context boundary.
    pub open spec fn adapted(self) -> AcVlcState {
        AcVlcState {
            first_index: [
                self.first_index[0].adapted_of_many(FIRST_INDEX_LAST_TABLE),
                self.first_index[1].adapted_of_many(FIRST_INDEX_LAST_TABLE),
            ],
            index: [
                [
                    self.index[0][0].adapted_of_many(INDEX_LAST_TABLE),
                    self.index[0][1].adapted_of_many(INDEX_LAST_TABLE),
                ],
                [
                    self.index[1][0].adapted_of_many(INDEX_LAST_TABLE),
                    self.index[1][1].adapted_of_many(INDEX_LAST_TABLE),
                ],
            ],
            abs_level: [self.abs_level[0].adapted_of_two(), self.abs_level[1].adapted_of_two()],
        }
    }

    /// Returns the state for the start of a tile.
    #[must_use]
    pub fn new() -> (state: Self)
        ensures
            state == AcVlcState::initial(),
            state.wf(),
    {
        AcVlcState {
            first_index: [AdaptiveVlc::multiple_tables(), AdaptiveVlc::multiple_tables()],
            index: [
                [AdaptiveVlc::multiple_tables(), AdaptiveVlc::multiple_tables()],
                [AdaptiveVlc::multiple_tables(), AdaptiveVlc::multiple_tables()],
            ],
            abs_level: [AdaptiveVlc::two_tables(), AdaptiveVlc::two_tables()],
        }
    }

    /// Reinitializes this state at the first macroblock of a tile.
    pub fn reset_tile(&mut self)
        ensures
            *final(self) == AcVlcState::initial(),
            final(self).wf(),
    {
        *self = AcVlcState::new();
    }

    /// Adapts every AC selector at a context boundary.
    pub fn adapt(&mut self)
        requires
            old(self).wf(),
        ensures
            *final(self) == old(self).adapted(),
            final(self).wf(),
    {
        self.first_index[0].adapt_two(FIRST_INDEX_LAST_TABLE);
        self.first_index[1].adapt_two(FIRST_INDEX_LAST_TABLE);
        self.index[0][0].adapt_two(INDEX_LAST_TABLE);
        self.index[0][1].adapt_two(INDEX_LAST_TABLE);
        self.index[1][0].adapt_two(INDEX_LAST_TABLE);
        self.index[1][1].adapt_two(INDEX_LAST_TABLE);
        self.abs_level[0].adapt_one();
        self.abs_level[1].adapt_one();
        proof {
            let adapted = old(self).adapted();
            assert(self.first_index =~= adapted.first_index);
            assert(self.index[0] =~= adapted.index[0]);
            assert(self.index[1] =~= adapted.index[1]);
            assert(self.index =~= adapted.index);
            assert(self.abs_level =~= adapted.abs_level);
        }
    }
}

/// Entropy state whose lifetime is exactly one coded tile.
#[derive(Debug, PartialEq, Eq)]
pub struct TileEntropyState {
    /// DC adaptive code-table selectors.
    pub dc_vlc: DcVlcState,
    /// LP adaptive code-table selectors.
    pub lp_vlc: AcVlcState,
    /// HP adaptive code-table selectors.
    pub hp_vlc: AcVlcState,
    /// Adaptive LP inverse scan.
    pub lp_scan: AdaptiveLpScan,
    /// Adaptive horizontal and vertical HP inverse scans.
    pub hp_scan: AdaptiveHpScan,
    /// DC coefficient-normalization model.
    pub dc_model: CoefficientModel,
    /// LP coefficient-normalization model.
    pub lp_model: CoefficientModel,
    /// HP coefficient-normalization model.
    pub hp_model: CoefficientModel,
}

impl Clone for TileEntropyState {
    fn clone(&self) -> (state: Self)
        ensures
            state == *self,
    {
        TileEntropyState {
            dc_vlc: self.dc_vlc.clone(),
            lp_vlc: self.lp_vlc.clone(),
            hp_vlc: self.hp_vlc.clone(),
            lp_scan: self.lp_scan.clone(),
            hp_scan: self.hp_scan.clone(),
            dc_model: self.dc_model,
            lp_model: self.lp_model,
            hp_model: self.hp_model,
        }
    }
}

impl Default for TileEntropyState {
    fn default() -> (state: Self)
        ensures
            state == TileEntropyState::initial(),
            state.wf(),
    {
        TileEntropyState::new()
    }
}

impl TileEntropyState {
    /// The state at the upper-left macroblock of a tile.
    pub open spec fn initial() -> TileEntropyState {
        TileEntropyState {
            dc_vlc: DcVlcState::initial(),
            lp_vlc: AcVlcState::initial(),
            hp_vlc: AcVlcState::initial(),
            lp_scan: AdaptiveLpScan::initial(),
            hp_scan: AdaptiveHpScan::initial(),
            dc_model: CoefficientModel::initial(FrequencyBand::Dc),
            lp_model: CoefficientModel::initial(FrequencyBand::Lowpass),
            hp_model: CoefficientModel::initial(FrequencyBand::Highpass),
        }
    }

    /// Every part of the state is well formed.
    pub open spec fn wf(self) -> bool {
        &&& self.dc_vlc.wf()
        &&& self.lp_vlc.wf()
        &&& self.hp_vlc.wf()
        &&& self.lp_scan.wf()
        &&& self.hp_scan.wf()
        &&& self.dc_model.wf()
        &&& self.lp_model.wf()
        &&& self.hp_model.wf()
    }

    /// Creates all state with the first-macroblock-of-tile values.
    #[must_use]
    pub fn new() -> (state: Self)
        ensures
            state == TileEntropyState::initial(),
            state.wf(),
    {
        TileEntropyState {
            dc_vlc: DcVlcState::new(),
            lp_vlc: AcVlcState::new(),
            hp_vlc: AcVlcState::new(),
            lp_scan: AdaptiveLpScan::new(),
            hp_scan: AdaptiveHpScan::new(),
            dc_model: CoefficientModel::new(FrequencyBand::Dc),
            lp_model: CoefficientModel::new(FrequencyBand::Lowpass),
            hp_model: CoefficientModel::new(FrequencyBand::Highpass),
        }
    }

    /// Applies the initialization required at a tile's upper-left macroblock.
    pub fn reset_tile(&mut self)
        ensures
            *final(self) == TileEntropyState::initial(),
            final(self).wf(),
    {
        *self = TileEntropyState::new();
    }

    /// Resets scan totals at each 16-macroblock column boundary without changing scan order.
    pub fn reset_scan_totals(&mut self)
        ensures
            *final(self) == (TileEntropyState {
                lp_scan: AdaptiveLpScan {
                    order: old(self).lp_scan.order,
                    totals: super::scan::SCAN_TOTALS,
                },
                hp_scan: AdaptiveHpScan {
                    horizontal_order: old(self).hp_scan.horizontal_order,
                    vertical_order: old(self).hp_scan.vertical_order,
                    horizontal_totals: super::scan::SCAN_TOTALS,
                    vertical_totals: super::scan::SCAN_TOTALS,
                },
                ..*old(self)
            }),
    {
        self.lp_scan.reset_totals();
        self.hp_scan.reset_totals();
    }
}

/// An adapted selector stays in its family of tables, one table away at most, and its
/// discriminants end within 64 of zero.
pub proof fn lemma_adaptation_is_gradual(selector: AdaptiveVlc, last: u8)
    requires
        selector.within(last),
    ensures
        selector.adapted_of_many(last).within(last),
        -1 <= selector.adapted_of_many(last).table_index - selector.table_index <= 1,
        -64 <= selector.adapted_of_many(last).discrim[0] <= 64,
        -64 <= selector.adapted_of_many(last).discrim[1] <= 64,
{
}

} // verus!
