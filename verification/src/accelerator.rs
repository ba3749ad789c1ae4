//! CPU entropy output prepared for accelerator reconstruction.

use crate::codestream::{ParsedCodestream, ParsedModel};
use crate::coefficient;
use crate::coefficient::{decode_coefficients, TileDecodeError};
use crate::decode::alpha;
use crate::decode::alpha::prepare_separate_alpha;
use crate::decode::arena::{ArenaModel, CoefficientArena};
use crate::metadata;
use crate::metadata::{ImageInfo, InfoModel};
use crate::plan;
use crate::plan::{DecodeRequest, PlanLimit, PlanModel, PreparedPlan};
use crate::types::{AlphaHandling, AlphaMode, JxrError};
use vstd::prelude::*;

verus! {

/// Coefficient arenas needed by one accelerator reconstruction request.
#[derive(Debug)]
pub struct AcceleratorCoefficients {
    /// Primary components and integrated alpha, when present.
    pub primary: CoefficientArena,
    /// Separately encoded Annex-A alpha and its independent plan.
    pub separate_alpha: Option<PreparedAlphaCoefficients>,
}

/// Prepared coefficient arena for a separate Annex-A alpha codestream.
#[derive(Debug)]
pub struct PreparedAlphaCoefficients {
    /// Alpha codestream reconstruction plan.
    pub plan: PreparedPlan,
    /// One luma coefficient plane.
    pub coefficients: CoefficientArena,
}

/// The plan and the coefficients of the separate alpha codestream, if it is given out.
pub open spec fn alpha_coefficients(
    source: Seq<u8>,
    parsed: ParsedModel,
    plan: PlanModel,
    request: DecodeRequest,
    entropy: spec_fn(Seq<u8>, ParsedModel, PlanModel) -> Result<ArenaModel, TileDecodeError>,
    rule: spec_fn(InfoModel) -> bool,
    limits: spec_fn(PlanLimit) -> Result<(), JxrError>,
) -> Result<Option<(PlanModel, ArenaModel)>, JxrError> {
    let planned = alpha::alpha_planned(
        source.len() as usize,
        parsed,
        plan,
        request,
        rule,
        limits,
    );
    let coefficients = coefficient::coefficients_of(
        source,
        planned->Ok_0.0,
        planned->Ok_0.1,
        entropy,
    );
    if plan.info.alpha_mode != AlphaMode::Separate || request.alpha == AlphaHandling::Drop {
        Ok(None)
    } else if planned is Err {
        Err(planned->Err_0)
    } else if coefficients is Err {
        Err(coefficients->Err_0)
    } else {
        Ok(Some((planned->Ok_0.1, coefficients->Ok_0)))
    }
}

/// The plan and the coefficients of an alpha plane, if there is one.
pub open spec fn alpha_arena(alpha: Option<PreparedAlphaCoefficients>) -> Option<
    (PlanModel, ArenaModel),
> {
    match alpha {
        Some(alpha) => Some((alpha.plan@, alpha.coefficients@)),
        None => None,
    }
}

/// Decodes the coefficients of the separate alpha codestream, if it is given out.
pub fn prepare_separate_alpha_coefficients<
    E: Fn(&[u8], &ParsedCodestream, &PreparedPlan, CoefficientArena) -> (
        Result<bool, TileDecodeError>,
        CoefficientArena,
    ),
    C: Fn(&ImageInfo) -> bool,
    L: Fn(PlanLimit) -> Result<(), JxrError>,
>(
    source: &[u8],
    parsed: &ParsedCodestream,
    plan: &PreparedPlan,
    request: &DecodeRequest,
    entropy: &E,
    consistent: &C,
    limits: &L,
) -> (result: Result<Option<PreparedAlphaCoefficients>, JxrError>)
    requires
        alpha::alpha_is_plannable(parsed@),
        coefficient::decodable(*entropy),
        forall|info: &ImageInfo| call_requires(*consistent, (info,)),
        forall|limit: PlanLimit| call_requires(*limits, (limit,)),
    ensures
        forall|
            entropy_rule: spec_fn(Seq<u8>, ParsedModel, PlanModel) -> Result<
                ArenaModel,
                TileDecodeError,
            >,
            rule: spec_fn(InfoModel) -> bool,
            limit_rule: spec_fn(PlanLimit) -> Result<(), JxrError>,
        |
            #[trigger] coefficient::decodes(*entropy, entropy_rule) && #[trigger] metadata::checks(
                *consistent,
                rule,
            ) && #[trigger] plan::limited(*limits, limit_rule) ==> match (
                result,
                alpha_coefficients(
                    source@,
                    parsed@,
                    plan@,
                    *request,
                    entropy_rule,
                    rule,
                    limit_rule,
                ),
            ) {
                (Ok(alpha), Ok(expected)) => alpha_arena(alpha) == expected,
                (Err(error), Err(expected)) => error == expected,
                _ => false,
            },
{
    if plan.info.alpha_mode != AlphaMode::Separate || request.alpha == AlphaHandling::Drop {
        return Ok(None);
    }
    let length: usize = source.len();
    let (alpha_parsed, alpha_plan) = prepare_separate_alpha(
        length,
        parsed,
        plan,
        request,
        consistent,
        limits,
    )?;
    let coefficients: CoefficientArena = decode_coefficients(
        source,
        &alpha_parsed,
        &alpha_plan,
        entropy,
    )?;
    Ok(Some(PreparedAlphaCoefficients { plan: alpha_plan, coefficients }))
}

/// Decode entropy and prediction-owned stages once for an accelerator backend.
pub fn prepare_accelerator_coefficients<
    E: Fn(&[u8], &ParsedCodestream, &PreparedPlan, CoefficientArena) -> (
        Result<bool, TileDecodeError>,
        CoefficientArena,
    ),
    C: Fn(&ImageInfo) -> bool,
    L: Fn(PlanLimit) -> Result<(), JxrError>,
>(
    source: &[u8],
    parsed: &ParsedCodestream,
    plan: &PreparedPlan,
    request: &DecodeRequest,
    entropy: &E,
    consistent: &C,
    limits: &L,
) -> (result: Result<AcceleratorCoefficients, JxrError>)
    requires
        alpha::alpha_is_plannable(parsed@),
        coefficient::decodable(*entropy),
        forall|info: &ImageInfo| call_requires(*consistent, (info,)),
        forall|limit: PlanLimit| call_requires(*limits, (limit,)),
    ensures
        forall|
            entropy_rule: spec_fn(Seq<u8>, ParsedModel, PlanModel) -> Result<
                ArenaModel,
                TileDecodeError,
            >,
            rule: spec_fn(InfoModel) -> bool,
            limit_rule: spec_fn(PlanLimit) -> Result<(), JxrError>,
        |
            #[trigger] coefficient::decodes(*entropy, entropy_rule) && #[trigger] metadata::checks(
                *consistent,
                rule,
            ) && #[trigger] plan::limited(*limits, limit_rule) ==> {
                let primary = coefficient::coefficients_of(source@, parsed@, plan@, entropy_rule);
                let separate = alpha_coefficients(
                    source@,
                    parsed@,
                    plan@,
                    *request,
                    entropy_rule,
                    rule,
                    limit_rule,
                );
                match result {
                    Ok(output) => primary == Ok::<ArenaModel, JxrError>(output.primary@)
                        && separate == Ok::<Option<(PlanModel, ArenaModel)>, JxrError>(
                        alpha_arena(output.separate_alpha),
                    ),
                    Err(error) => if primary is Err {
                        primary->Err_0 == error
                    } else {
                        separate is Err && separate->Err_0 == error
                    },
                }
            },
{
    let primary: CoefficientArena = decode_coefficients(source, parsed, plan, entropy)?;
    let separate_alpha: Option<PreparedAlphaCoefficients> = prepare_separate_alpha_coefficients(
        source,
        parsed,
        plan,
        request,
        entropy,
        consistent,
        limits,
    )?;
    Ok(AcceleratorCoefficients { primary, separate_alpha })
}

} // verus!
