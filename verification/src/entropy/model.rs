//! Adaptive coefficient normalization.

use super::coefficients::FrequencyBand;
use super::error::EntropyError;
use vstd::prelude::*;

verus! {

/// Weight of the luma mean in each band.
pub const LUMA_WEIGHT: [i32; 3] = [240, 12, 1];

/// Weight of the chroma mean in each band, by the number of chroma components.
pub const OTHER_WEIGHT: [[i32; 16]; 3] = [
    [0, 240, 120, 80, 60, 48, 40, 34, 30, 27, 24, 22, 20, 18, 17, 16],
    [0, 12, 6, 4, 3, 2, 2, 2, 2, 1, 1, 1, 1, 1, 1, 1],
    [0, 16, 8, 5, 4, 3, 3, 2, 2, 2, 2, 1, 1, 1, 1, 1],
];

/// Weight of the chroma mean in each band for 4:2:0 and 4:2:2 chroma.
pub const SUBSAMPLED_WEIGHT: [[i32; 3]; 2] = [[120, 37, 2], [120, 18, 1]];

/// Colour information required by the coefficient-normalization model.
#[derive(Debug, Clone, Copy, PartialEq, Eq, Structural)]
pub enum ColourModel {
    /// A single luma component with no chroma model.
    LumaOnly,
    /// YUV 4:2:0 internal colour format.
    Yuv420,
    /// YUV 4:2:2 internal colour format.
    Yuv422,
    /// Any other format, carrying its total component count.
    Other {
        /// Number of components, from 2 through 16 for this model.
        components: u8,
    },
}

/// Model bits and integrator state for one frequency band.
#[derive(Debug, Clone, Copy, PartialEq, Eq)]
pub struct CoefficientModel {
    /// The band that the model belongs to.
    pub band: FrequencyBand,
    /// Integrator state for luma and chroma.
    pub state: [i32; 2],
    /// Model bits for luma and chroma.
    pub bits: [u8; 2],
}

/// Whether a product fits in 32 bits.
pub open spec fn fits(value: int) -> bool {
    i32::MIN <= value <= i32::MAX
}

/// The weighted chroma mean, or the error that weighting it meets.
pub open spec fn chroma_mean(band: FrequencyBand, mean: i32, colour: ColourModel) -> Result<
    i32,
    EntropyError,
> {
    let weight: int = match colour {
        ColourModel::LumaOnly => 0,
        ColourModel::Yuv420 => SUBSAMPLED_WEIGHT[0][band.rank() as int] as int,
        ColourModel::Yuv422 => SUBSAMPLED_WEIGHT[1][band.rank() as int] as int,
        ColourModel::Other { components } => OTHER_WEIGHT[band.rank() as int][components
            - 1] as int,
    };
    if colour matches ColourModel::Other { components } && !(2 <= components <= 16) {
        Err(
            EntropyError::InvalidParameter {
                parameter: "coefficient-model component count",
                value: colour->components as i64,
            },
        )
    } else if !fits(mean * weight) {
        Err(EntropyError::CoefficientOverflow)
    } else if colour is Other && band == FrequencyBand::Highpass {
        Ok(((mean * weight) / 16) as i32)
    } else {
        Ok((mean * weight) as i32)
    }
}

/// The step that a mean asks of the integrator: a quarter of its distance from 70, rounded down,
/// brought 4 closer to zero, and limited to the range from -16 to 15.  Distances of less than 8
/// quarters ask for nothing.
pub open spec fn step(mean: i32) -> int {
    let quarter = (mean - 70) / 4;
    if quarter <= -8 {
        if quarter + 4 < -16 {
            -16
        } else {
            quarter + 4
        }
    } else if quarter >= 8 {
        if quarter - 4 > 15 {
            15
        } else {
            quarter - 4
        }
    } else {
        0
    }
}

/// Integrator state and model bits after a mean was taken in.
pub open spec fn integrated(state: i32, bits: u8, mean: i32) -> (i32, u8) {
    let next = state + step(mean);
    if step(mean) < 0 && next < -8 {
        if bits == 0 {
            ((-8) as i32, bits)
        } else {
            (0, (bits - 1) as u8)
        }
    } else if step(mean) > 0 && next > 8 {
        if bits >= 15 {
            (8, 15)
        } else {
            (0, (bits + 1) as u8)
        }
    } else {
        (next as i32, bits)
    }
}

impl CoefficientModel {
    /// The number of model bits at the start of a tile.
    pub open spec fn initial_bits(band: FrequencyBand) -> u8 {
        match band {
            FrequencyBand::Dc => 8,
            FrequencyBand::Lowpass => 4,
            FrequencyBand::Highpass => 0,
        }
    }

    /// The model at the start of a tile.
    pub open spec fn initial(band: FrequencyBand) -> CoefficientModel {
        CoefficientModel {
            band,
            state: [0, 0],
            bits: [CoefficientModel::initial_bits(band), CoefficientModel::initial_bits(band)],
        }
    }

    /// Integrators within 8 of zero, and at most 15 model bits.
    pub open spec fn wf(self) -> bool {
        &&& -8 <= self.state[0] <= 8
        &&& -8 <= self.state[1] <= 8
        &&& self.bits[0] <= 15
        &&& self.bits[1] <= 15
    }

    /// The model after the means of a macroblock were taken in.
    pub open spec fn updated(self, lap_mean: [i32; 2], colour: ColourModel) -> Result<
        CoefficientModel,
        EntropyError,
    > {
        let luma = lap_mean[0] * LUMA_WEIGHT[self.band.rank() as int];
        if !fits(luma) {
            Err(EntropyError::CoefficientOverflow)
        } else {
            let (luma_state, luma_bits) = integrated(self.state[0], self.bits[0], luma as i32);
            if colour is LumaOnly {
                Ok(
                    CoefficientModel {
                        band: self.band,
                        state: [luma_state, self.state[1]],
                        bits: [luma_bits, self.bits[1]],
                    },
                )
            } else {
                match chroma_mean(self.band, lap_mean[1], colour) {
                    Err(error) => Err(error),
                    Ok(chroma) => {
                        let (chroma_state, chroma_bits) = integrated(
                            self.state[1],
                            self.bits[1],
                            chroma,
                        );
                        Ok(
                            CoefficientModel {
                                band: self.band,
                                state: [luma_state, chroma_state],
                                bits: [luma_bits, chroma_bits],
                            },
                        )
                    },
                }
            }
        }
    }

    /// Creates a model with the values for the start of a tile.
    #[must_use]
    pub fn new(band: FrequencyBand) -> (model: Self)
        ensures
            model == CoefficientModel::initial(band),
            model.wf(),
    {
        let bits: u8 = match band {
            FrequencyBand::Dc => 8,
            FrequencyBand::Lowpass => 4,
            FrequencyBand::Highpass => 0,
        };
        CoefficientModel { band, state: [0, 0], bits: [bits, bits] }
    }

    /// Restores the first-macroblock-of-tile state.
    pub fn reset_tile(&mut self)
        ensures
            *final(self) == CoefficientModel::initial(old(self).band),
            final(self).wf(),
    {
        *self = CoefficientModel::new(self.band);
    }

    /// Returns model bits for luma (`false`) or chroma (`true`).
    #[must_use]
    pub fn bits(&self, chroma: bool) -> (bits: u8)
        ensures
            bits == self.bits[if chroma {
                1
            } else {
                0
            }],
    {
        if chroma {
            self.bits[1]
        } else {
            self.bits[0]
        }
    }

    /// Updates the model from the macroblock luma/chroma Laplacian means.
    ///
    /// A mean below `i32::MIN + 70` after weighting has no distance from 70 in 32 bits, so the
    /// weighted means must stay above it.
    pub fn update(&mut self, lap_mean: [i32; 2], colour: ColourModel) -> (result: Result<
        (),
        EntropyError,
    >)
        requires
            old(self).wf(),
            lap_mean[0] * LUMA_WEIGHT[old(self).band.rank() as int] >= i32::MIN + 70 || !fits(
                lap_mean[0] * LUMA_WEIGHT[old(self).band.rank() as int],
            ),
            colour !is LumaOnly ==> (chroma_mean(old(self).band, lap_mean[1], colour) matches Ok(
                mean,
            ) ==> mean >= i32::MIN + 70),
        ensures
            final(self).wf(),
            match old(self).updated(lap_mean, colour) {
                Ok(model) => result is Ok && *final(self) == model,
                Err(error) => result == Err::<(), EntropyError>(error) && *final(self) == *old(
                    self,
                ),
            },
    {
        let band: usize = self.band.index();
        let luma: i32 = match lap_mean[0].checked_mul(LUMA_WEIGHT[band]) {
            Some(mean) => mean,
            None => return Err(EntropyError::CoefficientOverflow),
        };
        if let ColourModel::LumaOnly = colour {
            self.integrate_luma(luma);
            proof {
                let model = old(self).updated(lap_mean, colour)->Ok_0;
                assert(self.state =~= model.state);
                assert(self.bits =~= model.bits);
            }
            return Ok(());
        }
        let chroma: i32 = match colour {
            ColourModel::LumaOnly => 0,
            ColourModel::Yuv420 => match lap_mean[1].checked_mul(SUBSAMPLED_WEIGHT[0][band]) {
                Some(mean) => mean,
                None => return Err(EntropyError::CoefficientOverflow),
            },
            ColourModel::Yuv422 => match lap_mean[1].checked_mul(SUBSAMPLED_WEIGHT[1][band]) {
                Some(mean) => mean,
                None => return Err(EntropyError::CoefficientOverflow),
            },
            ColourModel::Other { components } => {
                if !(2 <= components && components <= 16) {
                    return Err(
                        EntropyError::InvalidParameter {
                            parameter: "coefficient-model component count",
                            value: components as i64,
                        },
                    );
                }
                let chroma_count: usize = (components - 1) as usize;
                let mean: i32 = match lap_mean[1].checked_mul(OTHER_WEIGHT[band][chroma_count]) {
                    Some(mean) => mean,
                    None => return Err(EntropyError::CoefficientOverflow),
                };
                if self.band == FrequencyBand::Highpass {
                    proof {
                        assert(mean >> 4u32 == mean / 16) by (bit_vector);
                    }
                    mean >> 4u32
                } else {
                    mean
                }
            },
        };
        self.integrate_luma(luma);
        self.integrate_chroma(chroma);
        proof {
            let model = old(self).updated(lap_mean, colour)->Ok_0;
            assert(self.state =~= model.state);
            assert(self.bits =~= model.bits);
        }
        Ok(())
    }

    fn integrate_luma(&mut self, mean: i32)
        requires
            old(self).wf(),
            mean >= i32::MIN + 70,
        ensures
            final(self).wf(),
            final(self).band == old(self).band,
            (final(self).state[0], final(self).bits[0]) == integrated(
                old(self).state[0],
                old(self).bits[0],
                mean,
            ),
            final(self).state[1] == old(self).state[1],
            final(self).bits[1] == old(self).bits[1],
    {
        let (state, bits) = update_one(self.state[0], self.bits[0], mean);
        self.state[0] = state;
        self.bits[0] = bits;
    }

    fn integrate_chroma(&mut self, mean: i32)
        requires
            old(self).wf(),
            mean >= i32::MIN + 70,
        ensures
            final(self).wf(),
            final(self).band == old(self).band,
            (final(self).state[1], final(self).bits[1]) == integrated(
                old(self).state[1],
                old(self).bits[1],
                mean,
            ),
            final(self).state[0] == old(self).state[0],
            final(self).bits[0] == old(self).bits[0],
    {
        let (state, bits) = update_one(self.state[1], self.bits[1], mean);
        self.state[1] = state;
        self.bits[1] = bits;
    }
}

fn update_one(state: i32, bits: u8, lap_mean: i32) -> (result: (i32, u8))
    requires
        -8 <= state <= 8,
        bits <= 15,
        lap_mean >= i32::MIN + 70,
    ensures
        result == integrated(state, bits, lap_mean),
        -8 <= result.0 <= 8,
        result.1 <= 15,
{
    let distance: i32 = lap_mean - 70;
    proof {
        assert(distance >> 2u32 == distance / 4) by (bit_vector);
    }
    let quarter: i32 = distance >> 2u32;
    if quarter <= -8 {
        let delta: i32 = if quarter + 4 < -16 {
            -16
        } else {
            quarter + 4
        };
        let next: i32 = state + delta;
        if next < -8 {
            if bits == 0 {
                (-8, bits)
            } else {
                (0, bits - 1)
            }
        } else {
            (next, bits)
        }
    } else if quarter >= 8 {
        let delta: i32 = if quarter - 4 > 15 {
            15
        } else {
            quarter - 4
        };
        let next: i32 = state + delta;
        if next > 8 {
            if bits >= 15 {
                (8, 15)
            } else {
                (0, bits + 1)
            }
        } else {
            (next, bits)
        }
    } else {
        (state, bits)
    }
}

} // verus!
