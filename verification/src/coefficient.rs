//! CPU entropy handoff for scalar and accelerator reconstruction routes.

use crate::codestream::{ParsedCodestream, ParsedModel};
use crate::decode::arena::{ArenaModel, CoefficientArena, CoefficientArenaDescriptor};
use crate::plan::{PlanModel, PreparedPlan};
use crate::types::{JxrError, JxrErrorKind};
use vstd::prelude::*;

verus! {

/// Category of a tile failure.
#[derive(Debug, Clone, Copy, PartialEq, Eq, Structural)]
pub enum TileFailure {
    /// A packet range lies outside the input.
    PacketRangeOutsideInput,
    /// Checked arithmetic overflowed.
    ArithmeticOverflow,
    /// The tile uses something that is not implemented.
    Unsupported,
    /// The plan does not fit the tiles.
    InvalidPlan,
    /// A packet does not begin as it should.
    InvalidStartCode,
    /// A quantizer index names no quantizer.
    InvalidQuantizerIndex,
    /// A code word or a coefficient is invalid.
    Entropy,
}

/// Failure while the packets of a tile are decoded.
#[derive(Debug, Clone, Copy, PartialEq, Eq)]
pub struct TileDecodeError {
    /// Category.
    pub failure: TileFailure,
    /// What was being done.
    pub operation: &'static str,
}

/// The decode failure for a tile failure.
#[verifier::allow_in_spec]
pub fn map_tile_error(error: TileDecodeError) -> JxrError
    returns
        (JxrError {
            kind: match error.failure {
                TileFailure::PacketRangeOutsideInput => JxrErrorKind::Truncated,
                TileFailure::ArithmeticOverflow => JxrErrorKind::ArithmeticOverflow,
                TileFailure::Unsupported => JxrErrorKind::Unsupported,
                TileFailure::InvalidPlan => JxrErrorKind::InternalInvariant,
                TileFailure::InvalidStartCode | TileFailure::InvalidQuantizerIndex
                | TileFailure::Entropy => JxrErrorKind::InvalidSyntax,
            },
            operation: error.operation,
        }),
{
    let kind: JxrErrorKind = match error.failure {
        TileFailure::PacketRangeOutsideInput => JxrErrorKind::Truncated,
        TileFailure::ArithmeticOverflow => JxrErrorKind::ArithmeticOverflow,
        TileFailure::Unsupported => JxrErrorKind::Unsupported,
        TileFailure::InvalidPlan => JxrErrorKind::InternalInvariant,
        TileFailure::InvalidStartCode | TileFailure::InvalidQuantizerIndex
        | TileFailure::Entropy => JxrErrorKind::InvalidSyntax,
    };
    JxrError::new(kind, error.operation)
}

/// Whether an entropy decoder can be run. It takes the arena of an earlier decode, and returns an
/// arena and whether it needed no new allocation.
pub open spec fn decodable<
    E: Fn(&[u8], &ParsedCodestream, &PreparedPlan, CoefficientArena) -> (
        Result<bool, TileDecodeError>,
        CoefficientArena,
    ),
>(entropy: E) -> bool {
    forall|
        source: &[u8],
        parsed: &ParsedCodestream,
        plan: &PreparedPlan,
        arena: CoefficientArena,
    | call_requires(entropy, (source, parsed, plan, arena))
}

/// Whether an executable entropy decoder decodes what the rule says.
pub open spec fn decodes<
    E: Fn(&[u8], &ParsedCodestream, &PreparedPlan, CoefficientArena) -> (
        Result<bool, TileDecodeError>,
        CoefficientArena,
    ),
>(
    entropy: E,
    rule: spec_fn(Seq<u8>, ParsedModel, PlanModel) -> Result<ArenaModel, TileDecodeError>,
) -> bool {
    forall|
        source: &[u8],
        parsed: &ParsedCodestream,
        plan: &PreparedPlan,
        arena: CoefficientArena,
        output: (Result<bool, TileDecodeError>, CoefficientArena),
    | #[trigger]
        call_ensures(entropy, (source, parsed, plan, arena), output) ==> match (
            output.0,
            rule(source@, parsed@, plan@),
        ) {
            (Ok(_), Ok(expected)) => output.1@ == expected,
            (Err(error), Err(expected)) => error == expected,
            _ => false,
        }
}

/// The coefficients of an input.
pub open spec fn coefficients_of(
    source: Seq<u8>,
    parsed: ParsedModel,
    plan: PlanModel,
    rule: spec_fn(Seq<u8>, ParsedModel, PlanModel) -> Result<ArenaModel, TileDecodeError>,
) -> Result<ArenaModel, JxrError> {
    match rule(source, parsed, plan) {
        Ok(arena) => Ok(arena),
        Err(error) => Err(map_tile_error(error)),
    }
}

/// Decode entropy, scans, remapping, and prediction into the shared coefficient arena.
pub fn decode_coefficients<
    E: Fn(&[u8], &ParsedCodestream, &PreparedPlan, CoefficientArena) -> (
        Result<bool, TileDecodeError>,
        CoefficientArena,
    ),
>(source: &[u8], parsed: &ParsedCodestream, plan: &PreparedPlan, entropy: &E) -> (result: Result<
    CoefficientArena,
    JxrError,
>)
    requires
        decodable(*entropy),
    ensures
        forall|
            rule: spec_fn(Seq<u8>, ParsedModel, PlanModel) -> Result<ArenaModel, TileDecodeError>,
        | #[trigger]
            decodes(*entropy, rule) ==> match (
                result,
                coefficients_of(source@, parsed@, plan@, rule),
            ) {
                (Ok(arena), Ok(expected)) => arena@ == expected,
                (Err(error), Err(expected)) => error == expected,
                _ => false,
            },
{
    let (answer, arena) = entropy(source, parsed, plan, CoefficientArena::new());
    match answer {
        Ok(_) => Ok(arena),
        Err(error) => Err(map_tile_error(error)),
    }
}

/// Decodes into the arena of an earlier decode, and says whether it needed no new allocation.
pub fn decode_coefficients_reusing<
    E: Fn(&[u8], &ParsedCodestream, &PreparedPlan, CoefficientArena) -> (
        Result<bool, TileDecodeError>,
        CoefficientArena,
    ),
>(
    source: &[u8],
    parsed: &ParsedCodestream,
    plan: &PreparedPlan,
    arena: &mut CoefficientArena,
    entropy: &E,
) -> (result: Result<bool, JxrError>)
    requires
        decodable(*entropy),
    ensures
        exists|output: (Result<bool, TileDecodeError>, CoefficientArena)|
            {
                &&& #[trigger] call_ensures(*entropy, (source, parsed, plan, *old(arena)), output)
                &&& *final(arena) == output.1
                &&& result == (match output.0 {
                    Ok(reused) => Ok::<bool, JxrError>(reused),
                    Err(error) => Err(map_tile_error(error)),
                })
            },
        forall|
            rule: spec_fn(Seq<u8>, ParsedModel, PlanModel) -> Result<ArenaModel, TileDecodeError>,
        | #[trigger]
            decodes(*entropy, rule) ==> match (
                result,
                coefficients_of(source@, parsed@, plan@, rule),
            ) {
                (Ok(_), Ok(expected)) => final(arena)@ == expected,
                (Err(error), Err(expected)) => error == expected,
                _ => false,
            },
{
    let mut earlier: CoefficientArena = CoefficientArena::new();
    std::mem::swap(&mut earlier, arena);
    let (answer, decoded) = entropy(source, parsed, plan, earlier);
    *arena = decoded;
    match answer {
        Ok(reused) => Ok(reused),
        Err(error) => Err(map_tile_error(error)),
    }
}

/// Whether an executable count of coefficients is the one that the rule gives.
pub open spec fn counts<N: Fn(&ParsedCodestream, &PreparedPlan) -> Result<usize, TileDecodeError>>(
    count: N,
    rule: spec_fn(ParsedModel, PlanModel) -> Result<usize, TileDecodeError>,
) -> bool {
    forall|
        parsed: &ParsedCodestream,
        plan: &PreparedPlan,
        output: Result<usize, TileDecodeError>,
    | #[trigger]
        call_ensures(count, (parsed, plan), output) ==> output == rule(parsed@, plan@)
}

/// Exact coefficient element count required by caller-owned entropy storage.
pub fn coefficient_count<
    N: Fn(&ParsedCodestream, &PreparedPlan) -> Result<usize, TileDecodeError>,
>(parsed: &ParsedCodestream, plan: &PreparedPlan, count: &N) -> (result: Result<usize, JxrError>)
    requires
        forall|parsed: &ParsedCodestream, plan: &PreparedPlan|
            call_requires(*count, (parsed, plan)),
    ensures
        forall|rule: spec_fn(ParsedModel, PlanModel) -> Result<usize, TileDecodeError>| #[trigger]
            counts(*count, rule) ==> result == (match rule(parsed@, plan@) {
                Ok(total) => Ok::<usize, JxrError>(total),
                Err(error) => Err(map_tile_error(error)),
            }),
{
    match count(parsed, plan) {
        Ok(total) => Ok(total),
        Err(error) => Err(map_tile_error(error)),
    }
}

/// Whether an entropy decoder that fills the storage of a caller can be run.
pub open spec fn storable<
    S: Fn(&[u8], &ParsedCodestream, &PreparedPlan, Vec<i32>) -> (
        Result<CoefficientArenaDescriptor, TileDecodeError>,
        Vec<i32>,
    ),
>(entropy: S) -> bool {
    forall|source: &[u8], parsed: &ParsedCodestream, plan: &PreparedPlan, storage: Vec<i32>|
        call_requires(entropy, (source, parsed, plan, storage))
}

/// Whether an executable entropy decoder fills storage of some length as the rule says.
pub open spec fn stores<
    S: Fn(&[u8], &ParsedCodestream, &PreparedPlan, Vec<i32>) -> (
        Result<CoefficientArenaDescriptor, TileDecodeError>,
        Vec<i32>,
    ),
>(
    entropy: S,
    rule: spec_fn(Seq<u8>, ParsedModel, PlanModel, nat) -> Result<ArenaModel, TileDecodeError>,
) -> bool {
    forall|
        source: &[u8],
        parsed: &ParsedCodestream,
        plan: &PreparedPlan,
        storage: Vec<i32>,
        output: (Result<CoefficientArenaDescriptor, TileDecodeError>, Vec<i32>),
    | #[trigger]
        call_ensures(entropy, (source, parsed, plan, storage), output) ==> match (
            output.0,
            rule(source@, parsed@, plan@, storage@.len()),
        ) {
            (Ok(descriptor), Ok(expected)) => descriptor.with_coefficients(output.1@) == expected,
            (Err(error), Err(expected)) => error == expected,
            _ => false,
        }
}

/// Decode entropy directly into exact-size caller-owned coefficient storage.
pub fn decode_coefficients_into<
    S: Fn(&[u8], &ParsedCodestream, &PreparedPlan, Vec<i32>) -> (
        Result<CoefficientArenaDescriptor, TileDecodeError>,
        Vec<i32>,
    ),
>(
    source: &[u8],
    parsed: &ParsedCodestream,
    plan: &PreparedPlan,
    destination: &mut Vec<i32>,
    entropy: &S,
) -> (result: Result<CoefficientArenaDescriptor, JxrError>)
    requires
        storable(*entropy),
    ensures
        forall|
            rule: spec_fn(Seq<u8>, ParsedModel, PlanModel, nat) -> Result<
                ArenaModel,
                TileDecodeError,
            >,
        | #[trigger]
            stores(*entropy, rule) ==> match (
                result,
                rule(source@, parsed@, plan@, old(destination)@.len()),
            ) {
                (Ok(descriptor), Ok(expected)) => descriptor.with_coefficients(
                    final(destination)@,
                ) == expected,
                (Err(error), Err(expected)) => error == map_tile_error(expected),
                _ => false,
            },
{
    let mut storage: Vec<i32> = Vec::new();
    std::mem::swap(&mut storage, destination);
    let (answer, filled) = entropy(source, parsed, plan, storage);
    *destination = filled;
    match answer {
        Ok(descriptor) => Ok(descriptor),
        Err(error) => Err(map_tile_error(error)),
    }
}

} // verus!
