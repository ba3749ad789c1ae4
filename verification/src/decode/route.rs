//! The connected route from tile packets to typed output.

use crate::codestream::{ParsedCodestream, ParsedModel};
use crate::coefficient;
use crate::coefficient::{decode_coefficients_reusing, TileDecodeError};
use crate::cpu::CpuCapabilities;
use crate::decode::alpha;
use crate::decode::alpha::{prepare_separate_alpha, take_alpha_component, validate_alpha_policy};
use crate::decode::arena::{ArenaModel, CoefficientArena};
use crate::decode::output;
use crate::decode::output::{
    format_image, format_image_into, CpuDecodeIntoOutput, DecodedImage, DecodedModel, StoredModel,
};
use crate::decode::policy;
use crate::decode::reconstruction;
use crate::decode::reconstruction::{
    reconstruct_arena, ComponentModel, ReconstructionOperators, ReconstructionRules,
    ReconstructionWorkspace,
};
use crate::decode::unpack::HighPassKernel;
use crate::metadata;
use crate::metadata::{ImageInfo, InfoModel};
use crate::output_format::laws;
use crate::output_format::planar::is_planar;
use crate::output_format::planar_laws;
use crate::output_format::premultiply;
use crate::output_format::premultiply::PixelOperator;
use crate::output_format::request::OutputBitDepth;
use crate::output_format::samples::{DecodedSamples, SamplesModel};
use crate::plan;
use crate::plan::{DecodeRequest, PlanLimit, PlanModel, PreparedPlan};
use crate::reconstruct::contract::{PlanarSamples, PlaneSamples};
use crate::reconstruct::kernels::Kernel;
use crate::reconstruct::pipeline;
use crate::reconstruct::pipeline::{room_of, saturating_product};
use crate::types::{AlphaMode, BackendRequest, JxrError, JxrErrorKind};
use vstd::prelude::*;

verus! {

/// Operators that a decode is run with.
pub struct DecodeOperators<K, P, V, E, O, C, L, D> {
    /// Operators of reconstruction.
    pub reconstruction: ReconstructionOperators<K, P, V>,
    /// Entropy decoder.
    pub entropy: E,
    /// Operators on the numbers of a pixel.
    pub pixels: O,
    /// Check of an image description.
    pub consistent: C,
    /// Resource limits.
    pub limits: L,
    /// Check of an image layout.
    pub layout: D,
}

/// What the operators of a decode compute.
pub struct DecodeRules {
    /// Operators of reconstruction.
    pub reconstruction: ReconstructionRules,
    /// Entropy decoder.
    pub entropy: spec_fn(Seq<u8>, ParsedModel, PlanModel) -> Result<ArenaModel, TileDecodeError>,
    /// Operators on the numbers of a pixel.
    pub pixels: spec_fn(PixelOperator, Seq<int>) -> Option<int>,
    /// Check of an image description.
    pub consistent: spec_fn(InfoModel) -> bool,
    /// Resource limits.
    pub limits: spec_fn(PlanLimit) -> Result<(), JxrError>,
    /// Check of an image layout.
    pub layout: spec_fn(DecodedModel) -> Result<(), JxrError>,
}

/// Whether the operators can be run.
pub open spec fn ready<
    K: Fn(Kernel, [i32; 16]) -> Option<[i32; 16]>,
    P: Fn(HighPassKernel, [i32; 256]) -> Option<[i32; 256]>,
    V: Fn(&CoefficientArena) -> Result<(), JxrError>,
    E: Fn(&[u8], &ParsedCodestream, &PreparedPlan, CoefficientArena) -> (
        Result<bool, TileDecodeError>,
        CoefficientArena,
    ),
    O: Fn(PixelOperator, [i64; 3]) -> Option<i64>,
    C: Fn(&ImageInfo) -> bool,
    L: Fn(PlanLimit) -> Result<(), JxrError>,
    D: Fn(&DecodedImage) -> Result<(), JxrError>,
>(operators: DecodeOperators<K, P, V, E, O, C, L, D>) -> bool {
    &&& reconstruction::ready(operators.reconstruction)
    &&& coefficient::decodable(operators.entropy)
    &&& premultiply::usable(operators.pixels)
    &&& forall|info: &ImageInfo| call_requires(operators.consistent, (info,))
    &&& forall|limit: PlanLimit| call_requires(operators.limits, (limit,))
    &&& forall|image: &DecodedImage| call_requires(operators.layout, (image,))
}

/// Whether the operators compute what the rules say.
pub open spec fn follow<
    K: Fn(Kernel, [i32; 16]) -> Option<[i32; 16]>,
    P: Fn(HighPassKernel, [i32; 256]) -> Option<[i32; 256]>,
    V: Fn(&CoefficientArena) -> Result<(), JxrError>,
    E: Fn(&[u8], &ParsedCodestream, &PreparedPlan, CoefficientArena) -> (
        Result<bool, TileDecodeError>,
        CoefficientArena,
    ),
    O: Fn(PixelOperator, [i64; 3]) -> Option<i64>,
    C: Fn(&ImageInfo) -> bool,
    L: Fn(PlanLimit) -> Result<(), JxrError>,
    D: Fn(&DecodedImage) -> Result<(), JxrError>,
>(operators: DecodeOperators<K, P, V, E, O, C, L, D>, rules: DecodeRules) -> bool {
    &&& reconstruction::follow(operators.reconstruction, rules.reconstruction)
    &&& coefficient::decodes(operators.entropy, rules.entropy)
    &&& premultiply::computes(operators.pixels, rules.pixels)
    &&& metadata::checks(operators.consistent, rules.consistent)
    &&& plan::limited(operators.limits, rules.limits)
    &&& output::inspects(operators.layout, rules.layout)
}

/// The failure of a request for a device, which this route does not serve.
pub open spec fn route_error(backend: BackendRequest) -> Option<JxrError> {
    match backend {
        BackendRequest::Auto | BackendRequest::Cpu => None,
        BackendRequest::Metal | BackendRequest::Cuda => Some(
            JxrError::new(
                JxrErrorKind::BackendUnavailable,
                "select explicit accelerator session",
            ),
        ),
    }
}

fn validate_cpu_route(backend: BackendRequest) -> (result: Result<(), JxrError>)
    ensures
        result == (match route_error(backend) {
            Some(error) => Err::<(), JxrError>(error),
            None => Ok(()),
        }),
{
    match backend {
        BackendRequest::Auto | BackendRequest::Cpu => Ok(()),
        BackendRequest::Metal | BackendRequest::Cuda => Err(
            JxrError::new(
                JxrErrorKind::BackendUnavailable,
                "select explicit accelerator session",
            ),
        ),
    }
}

/// The planes of a codestream.
pub open spec fn codestream_planes(
    source: Seq<u8>,
    parsed: ParsedModel,
    plan: PlanModel,
    integrated_alpha: bool,
    rules: DecodeRules,
) -> Result<(Seq<PlaneSamples>, Option<PlaneSamples>), JxrError> {
    match coefficient::coefficients_of(source, parsed, plan, rules.entropy) {
        Err(error) => Err(error),
        Ok(arena) => reconstruction::arena_reconstructed(
            arena,
            parsed,
            plan,
            integrated_alpha,
            rules.reconstruction,
        ),
    }
}

/// The alpha plane of the separate alpha codestream of an input.
pub open spec fn separate_alpha(
    source: Seq<u8>,
    parsed: ParsedModel,
    plan: PlanModel,
    request: DecodeRequest,
    rules: DecodeRules,
) -> Result<PlaneSamples, JxrError> {
    match alpha::alpha_planned(
        source.len() as usize,
        parsed,
        plan,
        request,
        rules.consistent,
        rules.limits,
    ) {
        Err(error) => Err(error),
        Ok((alpha_parsed, alpha_plan)) => match codestream_planes(
            source,
            alpha_parsed,
            alpha_plan,
            false,
            rules,
        ) {
            Err(error) => Err(error),
            Ok((components, _)) => alpha::alpha_component(components),
        },
    }
}

/// The planes of an input: its components, decoded by the primary plan, and its alpha plane where
/// that is given out.
pub open spec fn input_planes(
    source: Seq<u8>,
    parsed: ParsedModel,
    plan: PlanModel,
    primary_plan: PlanModel,
    request: DecodeRequest,
    decode_alpha: bool,
    rules: DecodeRules,
) -> Result<(Seq<PlaneSamples>, Option<PlaneSamples>), JxrError> {
    let integrated = plan.info.alpha_mode == AlphaMode::Integrated;
    let primary = codestream_planes(source, parsed, primary_plan, integrated, rules);
    let separate = separate_alpha(source, parsed, plan, request, rules);
    if primary is Err {
        primary
    } else if !decode_alpha {
        Ok((primary->Ok_0.0, None))
    } else if integrated {
        primary
    } else if separate is Err {
        Err(separate->Err_0)
    } else {
        Ok((primary->Ok_0.0, Some(separate->Ok_0)))
    }
}

/// Retained native CPU entropy and reconstruction workspace for repeated decode.
#[derive(Debug)]
pub struct CpuDecodeWorkspace {
    primary_arena: CoefficientArena,
    primary_room: usize,
    primary_reconstruction: ReconstructionWorkspace,
    separate_alpha_arena: CoefficientArena,
    separate_alpha_room: usize,
    separate_alpha_reconstruction: ReconstructionWorkspace,
    coefficient_reuses: u64,
}

/// The sum of two counts, but no more than the largest count.
pub open spec fn capped_sum(first: int, second: int) -> int {
    let first = if first > u64::MAX {
        u64::MAX as int
    } else {
        first
    };
    let second = if second > u64::MAX {
        u64::MAX as int
    } else {
        second
    };
    if first + second > u64::MAX {
        u64::MAX as int
    } else {
        first + second
    }
}

/// Whether an arena and its recorded room are those from before, or the room is what the vector of
/// coefficients was found to have room for.
pub open spec fn arena_measured(
    earlier: CoefficientArena,
    earlier_room: usize,
    arena: CoefficientArena,
    room: usize,
) -> bool {
    (arena == earlier && room == earlier_room) || pipeline::measured(arena.coefficients, room)
}

/// Planes, and an optional one behind them.
spec fn with_alpha(planes: Seq<PlanarSamples>, alpha: Option<PlanarSamples>) -> Seq<PlanarSamples> {
    match alpha {
        Some(alpha) => planes.push(alpha),
        None => planes,
    }
}

/// Whether buffers took back the planes of the first components, as far as there are buffers for
/// them, and kept the room that they had for the others.
spec fn takes_back(
    before: ReconstructionWorkspace,
    after: ReconstructionWorkspace,
    planes: Seq<PlanarSamples>,
) -> bool {
    &&& after@.len() == before@.len()
    &&& forall|index: int|
        0 <= index < before@.len() ==> if index < planes.len() {
            reconstruction::took_back(
                before@[index],
                #[trigger] after@[index],
                planes[index].samples,
            )
        } else {
            after@[index] == before@[index]
        }
}

impl CpuDecodeWorkspace {
    /// Decodes that needed no new coefficient arena.
    pub closed spec fn arena_reuses(&self) -> u64 {
        self.coefficient_reuses
    }

    /// Buffers of the primary codestream that were large enough when they were needed again.
    pub open spec fn primary_reuses(&self) -> int {
        reconstruction::reuse_sum(self.primary_buffers(), self.primary_buffers().len())
    }

    /// Buffers of the separate alpha codestream that were large enough when they were needed again.
    pub open spec fn alpha_reuses(&self) -> int {
        reconstruction::reuse_sum(self.alpha_buffers(), self.alpha_buffers().len())
    }

    /// The arena of the last primary codestream.
    pub closed spec fn retained_arena(&self) -> CoefficientArena {
        self.primary_arena
    }

    /// The arena of the last separate alpha codestream.
    pub closed spec fn retained_alpha_arena(&self) -> CoefficientArena {
        self.separate_alpha_arena
    }

    /// Coefficients that the arena of the last primary codestream has room for.
    pub closed spec fn arena_room(&self) -> usize {
        self.primary_room
    }

    /// Coefficients that the arena of the last separate alpha codestream has room for.
    pub closed spec fn alpha_arena_room(&self) -> usize {
        self.separate_alpha_room
    }

    /// Buffers for the components of the primary codestream.
    pub closed spec fn primary_buffers(&self) -> Seq<ComponentModel> {
        self.primary_reconstruction@
    }

    /// Buffers for the components of the separate alpha codestream.
    pub closed spec fn alpha_buffers(&self) -> Seq<ComponentModel> {
        self.separate_alpha_reconstruction@
    }

    /// Whether the arenas have room for the coefficients that they hold.
    pub open spec fn wf(&self) -> bool {
        &&& self.arena_room() >= self.retained_arena().coefficients@.len()
        &&& self.alpha_arena_room() >= self.retained_alpha_arena().coefficients@.len()
    }

    /// Whether this is what another workspace may have become: no counter is smaller, and all
    /// recorded rooms are those from before or what the vectors were found to have room for.
    pub open spec fn continues(&self, earlier: CpuDecodeWorkspace) -> bool {
        &&& earlier.arena_reuses() <= self.arena_reuses()
        &&& earlier.primary_reuses() <= self.primary_reuses()
        &&& earlier.alpha_reuses() <= self.alpha_reuses()
        &&& earlier.wf() ==> self.wf()
        &&& arena_measured(
            earlier.retained_arena(),
            earlier.arena_room(),
            self.retained_arena(),
            self.arena_room(),
        )
        &&& arena_measured(
            earlier.retained_alpha_arena(),
            earlier.alpha_arena_room(),
            self.retained_alpha_arena(),
            self.alpha_arena_room(),
        )
        &&& reconstruction::all_rooms_known(earlier.primary_buffers(), self.primary_buffers())
        &&& reconstruction::all_rooms_known(earlier.alpha_buffers(), self.alpha_buffers())
    }

    /// Creates a workspace that retains nothing.
    pub fn new() -> (workspace: Self)
        ensures
            workspace.wf(),
            workspace.arena_reuses() == 0,
            workspace.arena_room() == 0,
            workspace.alpha_arena_room() == 0,
            workspace.primary_buffers() == Seq::<ComponentModel>::empty(),
            workspace.alpha_buffers() == Seq::<ComponentModel>::empty(),
    {
        CpuDecodeWorkspace {
            primary_arena: CoefficientArena::new(),
            primary_room: 0,
            primary_reconstruction: ReconstructionWorkspace::new(),
            separate_alpha_arena: CoefficientArena::new(),
            separate_alpha_room: 0,
            separate_alpha_reconstruction: ReconstructionWorkspace::new(),
            coefficient_reuses: 0,
        }
    }

    /// Number of decodes that reused an already-sufficient coefficient arena.
    #[must_use]
    pub fn coefficient_reuses(&self) -> (count: u64)
        ensures
            count == self.arena_reuses(),
    {
        self.coefficient_reuses
    }

    /// Bytes that the component raster, transform, and output-plane buffers have room for.
    pub open spec fn reconstruction_bytes(&self) -> int {
        reconstruction::byte_sum(self.primary_buffers(), self.primary_buffers().len())
            + reconstruction::byte_sum(self.alpha_buffers(), self.alpha_buffers().len())
    }

    /// Bytes retained by the coefficient vector capacity.
    #[must_use]
    pub fn retained_coefficient_bytes(&self) -> (bytes: usize)
        ensures
            bytes == pipeline::capped(4 * self.arena_room() + 4 * self.alpha_arena_room()),
    {
        saturating_product(self.primary_room, 4).saturating_add(
            saturating_product(self.separate_alpha_room, 4),
        )
    }

    /// Number of reconstruction scratch allocations reused across decodes.
    #[must_use]
    pub fn reconstruction_reuses(&self) -> (count: u64)
        ensures
            count == capped_sum(self.primary_reuses(), self.alpha_reuses()),
    {
        self.primary_reconstruction.reuses().saturating_add(
            self.separate_alpha_reconstruction.reuses(),
        )
    }

    /// Bytes retained by component raster, transform, and output-plane capacities.
    #[must_use]
    pub fn retained_reconstruction_bytes(&self) -> (bytes: usize)
        ensures
            bytes == pipeline::capped(self.reconstruction_bytes()),
    {
        self.primary_reconstruction.retained_bytes().saturating_add(
            self.separate_alpha_reconstruction.retained_bytes(),
        )
    }

    fn count_reuse(&mut self, reused: bool)
        ensures
            final(self).arena_reuses() == pipeline::counted(old(self).arena_reuses(), reused),
            final(self).primary_arena == old(self).primary_arena,
            final(self).primary_room == old(self).primary_room,
            final(self).separate_alpha_arena == old(self).separate_alpha_arena,
            final(self).separate_alpha_room == old(self).separate_alpha_room,
            final(self).primary_reconstruction == old(self).primary_reconstruction,
            final(self).separate_alpha_reconstruction == old(self).separate_alpha_reconstruction,
    {
        if reused && self.coefficient_reuses < u64::MAX {
            self.coefficient_reuses = self.coefficient_reuses + 1;
        }
    }

    fn recycle_reconstruction(
        &mut self,
        alpha_mode: AlphaMode,
        components: Vec<PlanarSamples>,
        alpha: Option<PlanarSamples>,
    )
        requires
            components@.len() <= old(self).primary_reconstruction@.len(),
        ensures
            final(self).primary_arena == old(self).primary_arena,
            final(self).primary_room == old(self).primary_room,
            final(self).separate_alpha_arena == old(self).separate_alpha_arena,
            final(self).separate_alpha_room == old(self).separate_alpha_room,
            final(self).continues(*old(self)),
            final(self).arena_reuses() == old(self).arena_reuses(),
            final(self).primary_reuses() == old(self).primary_reuses(),
            final(self).alpha_reuses() == old(self).alpha_reuses(),
            takes_back(
                old(self).primary_reconstruction,
                final(self).primary_reconstruction,
                if alpha_mode == AlphaMode::Integrated {
                    with_alpha(components@, alpha)
                } else {
                    components@
                },
            ),
            takes_back(
                old(self).separate_alpha_reconstruction,
                final(self).separate_alpha_reconstruction,
                if alpha_mode == AlphaMode::Separate {
                    with_alpha(Seq::empty(), alpha)
                } else {
                    Seq::empty()
                },
            ),
    {
        let ghost planes = components@;
        let ghost extra = alpha;
        let primary_count: usize = components.len();
        self.primary_reconstruction.recycle_components(components);
        if let Some(alpha) = alpha {
            match alpha_mode {
                AlphaMode::Integrated => self.primary_reconstruction.recycle_component(
                    primary_count,
                    alpha,
                ),
                AlphaMode::Separate => self.separate_alpha_reconstruction.recycle_component(
                    0,
                    alpha,
                ),
                AlphaMode::Absent => {},
            }
        }
        proof {
            reconstruction::lemma_taken_back_is_known(
                old(self).primary_reconstruction@,
                self.primary_reconstruction@,
                if alpha_mode == AlphaMode::Integrated {
                    with_alpha(planes, extra)
                } else {
                    planes
                },
            );
            reconstruction::lemma_taken_back_is_known(
                old(self).separate_alpha_reconstruction@,
                self.separate_alpha_reconstruction@,
                if alpha_mode == AlphaMode::Separate {
                    with_alpha(Seq::empty(), extra)
                } else {
                    Seq::empty()
                },
            );
        }
    }
}

/// Whether a workspace was used for a primary codestream: the entropy decoder got the retained
/// arena and its answer was counted, and the buffers for the components were used for the arena
/// that came back.
pub open spec fn served<
    E: Fn(&[u8], &ParsedCodestream, &PreparedPlan, CoefficientArena) -> (
        Result<bool, TileDecodeError>,
        CoefficientArena,
    ),
>(
    before: CpuDecodeWorkspace,
    after: CpuDecodeWorkspace,
    reuses: u64,
    source: &[u8],
    parsed: &ParsedCodestream,
    plan: &PreparedPlan,
    entropy: E,
) -> bool {
    exists|output: (Result<bool, TileDecodeError>, CoefficientArena)|
        {
            &&& #[trigger] call_ensures(
                entropy,
                (source, parsed, plan, before.retained_arena()),
                output,
            )
            &&& output.0 matches Ok(reused) && reuses == pipeline::counted(
                before.arena_reuses(),
                reused,
            )
            &&& after.retained_arena() == output.1
            &&& reconstruction::arena_used(
                before.primary_buffers(),
                after.primary_buffers(),
                output.1@,
                plan@,
            )
        }
}

/// Whether a workspace was used for a separate alpha codestream, in the same way.
pub open spec fn alpha_served<
    E: Fn(&[u8], &ParsedCodestream, &PreparedPlan, CoefficientArena) -> (
        Result<bool, TileDecodeError>,
        CoefficientArena,
    ),
>(
    before: CpuDecodeWorkspace,
    after: CpuDecodeWorkspace,
    reuses: u64,
    source: &[u8],
    entropy: E,
) -> bool {
    exists|
        parsed: ParsedCodestream,
        plan: PreparedPlan,
        output: (Result<bool, TileDecodeError>, CoefficientArena),
    |
        {
            &&& #[trigger] call_ensures(
                entropy,
                (source, &parsed, &plan, before.retained_alpha_arena()),
                output,
            )
            &&& output.0 matches Ok(reused) && after.arena_reuses() == pipeline::counted(
                reuses,
                reused,
            )
            &&& after.retained_alpha_arena() == output.1
            &&& reconstruction::arena_used(
                before.alpha_buffers(),
                after.alpha_buffers(),
                output.1@,
                plan@,
            )
        }
}

/// Whether a workspace was used for an input: for its primary codestream, and for its separate
/// alpha codestream where that is decoded.
#[verifier::opaque]
pub open spec fn used<
    E: Fn(&[u8], &ParsedCodestream, &PreparedPlan, CoefficientArena) -> (
        Result<bool, TileDecodeError>,
        CoefficientArena,
    ),
>(
    before: CpuDecodeWorkspace,
    after: CpuDecodeWorkspace,
    source: &[u8],
    parsed: &ParsedCodestream,
    plan: &PreparedPlan,
    separate: bool,
    entropy: E,
) -> bool {
    exists|reuses: u64|
        {
            &&& #[trigger] served(before, after, reuses, source, parsed, plan, entropy)
            &&& if separate {
                alpha_served(before, after, reuses, source, entropy)
            } else {
                &&& after.arena_reuses() == reuses
                &&& after.retained_alpha_arena() == before.retained_alpha_arena()
                &&& after.alpha_buffers() == before.alpha_buffers()
            }
        }
}

/// A workspace was used for an input without separate alpha.
proof fn lemma_primary_used<
    E: Fn(&[u8], &ParsedCodestream, &PreparedPlan, CoefficientArena) -> (
        Result<bool, TileDecodeError>,
        CoefficientArena,
    ),
>(
    before: CpuDecodeWorkspace,
    after: CpuDecodeWorkspace,
    source: &[u8],
    parsed: &ParsedCodestream,
    plan: &PreparedPlan,
    entropy: E,
)
    requires
        served(before, after, after.arena_reuses(), source, parsed, plan, entropy),
        after.retained_alpha_arena() == before.retained_alpha_arena(),
        after.alpha_buffers() == before.alpha_buffers(),
    ensures
        used(before, after, source, parsed, plan, false, entropy),
{
    reveal(used);
}

/// A workspace was used for an input whose separate alpha is decoded behind its primary codestream.
proof fn lemma_both_used<
    E: Fn(&[u8], &ParsedCodestream, &PreparedPlan, CoefficientArena) -> (
        Result<bool, TileDecodeError>,
        CoefficientArena,
    ),
>(
    before: CpuDecodeWorkspace,
    middle: CpuDecodeWorkspace,
    after: CpuDecodeWorkspace,
    source: &[u8],
    parsed: &ParsedCodestream,
    plan: &PreparedPlan,
    entropy: E,
)
    requires
        served(before, middle, middle.arena_reuses(), source, parsed, plan, entropy),
        middle.retained_alpha_arena() == before.retained_alpha_arena(),
        middle.alpha_buffers() == before.alpha_buffers(),
        alpha_served(middle, after, middle.arena_reuses(), source, entropy),
        after.retained_arena() == middle.retained_arena(),
        after.primary_buffers() == middle.primary_buffers(),
    ensures
        used(before, after, source, parsed, plan, true, entropy),
{
    reveal(used);
    let reuses = middle.arena_reuses();
    assert(served(before, after, reuses, source, parsed, plan, entropy));
    let (alpha_parsed, alpha_plan, output) = choose|
        alpha_parsed: ParsedCodestream,
        alpha_plan: PreparedPlan,
        output: (Result<bool, TileDecodeError>, CoefficientArena),
    |
        {
            &&& #[trigger] call_ensures(
                entropy,
                (source, &alpha_parsed, &alpha_plan, middle.retained_alpha_arena()),
                output,
            )
            &&& output.0 matches Ok(reused) && after.arena_reuses() == pipeline::counted(
                reuses,
                reused,
            )
            &&& after.retained_alpha_arena() == output.1
            &&& reconstruction::arena_used(
                middle.alpha_buffers(),
                after.alpha_buffers(),
                output.1@,
                alpha_plan@,
            )
        };
    assert(call_ensures(
        entropy,
        (source, &alpha_parsed, &alpha_plan, before.retained_alpha_arena()),
        output,
    ));
    assert(alpha_served(before, after, reuses, source, entropy));
}

/// Taking back planes that the arenas have leaves a workspace used as it was.
proof fn lemma_recycled_stays_used<
    E: Fn(&[u8], &ParsedCodestream, &PreparedPlan, CoefficientArena) -> (
        Result<bool, TileDecodeError>,
        CoefficientArena,
    ),
>(
    before: CpuDecodeWorkspace,
    middle: CpuDecodeWorkspace,
    after: CpuDecodeWorkspace,
    primary_planes: Seq<PlanarSamples>,
    alpha_planes: Seq<PlanarSamples>,
    source: &[u8],
    parsed: &ParsedCodestream,
    plan: &PreparedPlan,
    separate: bool,
    entropy: E,
)
    requires
        used(before, middle, source, parsed, plan, separate, entropy),
        after.arena_reuses() == middle.arena_reuses(),
        after.retained_arena() == middle.retained_arena(),
        after.retained_alpha_arena() == middle.retained_alpha_arena(),
        takes_back(middle.primary_reconstruction, after.primary_reconstruction, primary_planes),
        takes_back(
            middle.separate_alpha_reconstruction,
            after.separate_alpha_reconstruction,
            alpha_planes,
        ),
        primary_planes.len() <= middle.retained_arena()@.planes.len(),
        separate ==> alpha_planes.len() <= middle.retained_alpha_arena()@.planes.len(),
        !separate ==> alpha_planes.len() == 0,
    ensures
        used(before, after, source, parsed, plan, separate, entropy),
{
    reveal(used);
    let reuses = choose|reuses: u64|
        {
            &&& #[trigger] served(before, middle, reuses, source, parsed, plan, entropy)
            &&& if separate {
                alpha_served(before, middle, reuses, source, entropy)
            } else {
                &&& middle.arena_reuses() == reuses
                &&& middle.retained_alpha_arena() == before.retained_alpha_arena()
                &&& middle.alpha_buffers() == before.alpha_buffers()
            }
        };
    reconstruction::lemma_planes_do_not_matter(
        before.primary_buffers(),
        middle.primary_buffers(),
        after.primary_buffers(),
        middle.retained_arena()@,
        plan@,
    );
    assert(served(before, after, reuses, source, parsed, plan, entropy));
    if separate {
        let (alpha_parsed, alpha_plan, output) = choose|
            alpha_parsed: ParsedCodestream,
            alpha_plan: PreparedPlan,
            output: (Result<bool, TileDecodeError>, CoefficientArena),
        |
            {
                &&& #[trigger] call_ensures(
                    entropy,
                    (source, &alpha_parsed, &alpha_plan, before.retained_alpha_arena()),
                    output,
                )
                &&& output.0 matches Ok(reused) && middle.arena_reuses() == pipeline::counted(
                    reuses,
                    reused,
                )
                &&& middle.retained_alpha_arena() == output.1
                &&& reconstruction::arena_used(
                    before.alpha_buffers(),
                    middle.alpha_buffers(),
                    output.1@,
                    alpha_plan@,
                )
            };
        reconstruction::lemma_planes_do_not_matter(
            before.alpha_buffers(),
            middle.alpha_buffers(),
            after.alpha_buffers(),
            output.1@,
            alpha_plan@,
        );
        assert(call_ensures(
            entropy,
            (source, &alpha_parsed, &alpha_plan, before.retained_alpha_arena()),
            output,
        ));
        assert(alpha_served(before, after, reuses, source, entropy));
    } else {
        assert(after.alpha_buffers() =~= middle.alpha_buffers());
    }
}

/// Whether the separate alpha codestream of an input is decoded.
pub open spec fn decodes_separate_alpha(
    parsed: ParsedModel,
    plan: PlanModel,
    request: DecodeRequest,
) -> bool {
    plan.info.alpha_mode != AlphaMode::Integrated && alpha::alpha_policy(
        parsed,
        plan,
        request.alpha,
    ) == Ok::<bool, JxrError>(true)
}

/// Whether executable planes are the ones that are expected.
pub open spec fn planes_agree(
    result: Result<(Vec<PlanarSamples>, Option<PlanarSamples>), JxrError>,
    expected: Result<(Seq<PlaneSamples>, Option<PlaneSamples>), JxrError>,
) -> bool {
    reconstruction::image_agrees(result, expected)
}

/// Decodes the planes of a codestream, and says whether the arena needed no new allocation.
fn reconstruct_codestream<
    K: Fn(Kernel, [i32; 16]) -> Option<[i32; 16]>,
    P: Fn(HighPassKernel, [i32; 256]) -> Option<[i32; 256]>,
    V: Fn(&CoefficientArena) -> Result<(), JxrError>,
    E: Fn(&[u8], &ParsedCodestream, &PreparedPlan, CoefficientArena) -> (
        Result<bool, TileDecodeError>,
        CoefficientArena,
    ),
    O: Fn(PixelOperator, [i64; 3]) -> Option<i64>,
    C: Fn(&ImageInfo) -> bool,
    L: Fn(PlanLimit) -> Result<(), JxrError>,
    D: Fn(&DecodedImage) -> Result<(), JxrError>,
>(
    source: &[u8],
    parsed: &ParsedCodestream,
    plan: &PreparedPlan,
    integrated_alpha: bool,
    cpu: CpuCapabilities,
    arena: &mut CoefficientArena,
    room: &mut usize,
    workspace: &mut ReconstructionWorkspace,
    reused: &mut bool,
    operators: &DecodeOperators<K, P, V, E, O, C, L, D>,
) -> (result: Result<(Vec<PlanarSamples>, Option<PlanarSamples>), JxrError>)
    requires
        ready(*operators),
    ensures
        exists|output: (Result<bool, TileDecodeError>, CoefficientArena)|
            {
                &&& #[trigger] call_ensures(
                    operators.entropy,
                    (source, parsed, plan, *old(arena)),
                    output,
                )
                &&& *final(arena) == output.1
                &&& *final(reused) == (match output.0 {
                    Ok(answer) => answer,
                    Err(_) => *old(reused),
                })
                &&& result matches Ok((components, alpha)) ==> {
                    &&& output.0 is Ok
                    &&& output.1@.planes.len() <= final(workspace)@.len()
                    &&& output.1@.planes.len() == components@.len() + (if integrated_alpha {
                        1int
                    } else {
                        0
                    })
                    &&& reconstruction::arena_used(
                        old(workspace)@,
                        final(workspace)@,
                        output.1@,
                        plan@,
                    )
                }
            },
        pipeline::measured(final(arena).coefficients, *final(room)),
        *final(room) >= final(arena).coefficients@.len(),
        old(workspace).reuse_total() <= final(workspace).reuse_total(),
        reconstruction::all_rooms_known(old(workspace)@, final(workspace)@),
        result matches Ok((components, alpha)) ==> components@.len() <= final(workspace)@.len()
            && alpha is Some == integrated_alpha,
        forall|rules: DecodeRules| #[trigger]
            follow(*operators, rules) ==> planes_agree(
                result,
                codestream_planes(source@, parsed@, plan@, integrated_alpha, rules),
            ),
{
    let answer: Result<bool, JxrError> = decode_coefficients_reusing(
        source,
        parsed,
        plan,
        arena,
        &operators.entropy,
    );
    *room = room_of(&arena.coefficients);
    *reused = answer?;
    reconstruct_arena(
        arena,
        parsed,
        plan,
        integrated_alpha,
        cpu,
        workspace,
        &operators.reconstruction,
    )
}

/// Decodes the separate alpha codestream of an input.
fn reconstruct_separate_alpha<
    K: Fn(Kernel, [i32; 16]) -> Option<[i32; 16]>,
    P: Fn(HighPassKernel, [i32; 256]) -> Option<[i32; 256]>,
    V: Fn(&CoefficientArena) -> Result<(), JxrError>,
    E: Fn(&[u8], &ParsedCodestream, &PreparedPlan, CoefficientArena) -> (
        Result<bool, TileDecodeError>,
        CoefficientArena,
    ),
    O: Fn(PixelOperator, [i64; 3]) -> Option<i64>,
    C: Fn(&ImageInfo) -> bool,
    L: Fn(PlanLimit) -> Result<(), JxrError>,
    D: Fn(&DecodedImage) -> Result<(), JxrError>,
>(
    source: &[u8],
    parsed: &ParsedCodestream,
    plan: &PreparedPlan,
    request: &DecodeRequest,
    cpu: CpuCapabilities,
    workspace: &mut CpuDecodeWorkspace,
    operators: &DecodeOperators<K, P, V, E, O, C, L, D>,
) -> (result: Result<PlanarSamples, JxrError>)
    requires
        ready(*operators),
        alpha::alpha_is_plannable(parsed@),
    ensures
        final(workspace).continues(*old(workspace)),
        final(workspace).primary_arena == old(workspace).primary_arena,
        final(workspace).primary_room == old(workspace).primary_room,
        final(workspace).primary_reconstruction == old(workspace).primary_reconstruction,
        result is Ok ==> alpha_served(
            *old(workspace),
            *final(workspace),
            old(workspace).arena_reuses(),
            source,
            operators.entropy,
        ),
        result is Ok ==> final(workspace).separate_alpha_arena@.planes.len() >= 1,
        forall|rules: DecodeRules| #[trigger]
            follow(*operators, rules) ==> reconstruction::plane_agrees(
                result,
                separate_alpha(source@, parsed@, plan@, *request, rules),
            ),
{
    let length: usize = source.len();
    let (alpha_parsed, alpha_plan) = prepare_separate_alpha(
        length,
        parsed,
        plan,
        request,
        &operators.consistent,
        &operators.limits,
    )?;
    let mut reused: bool = false;
    let (components, _) = reconstruct_codestream(
        source,
        &alpha_parsed,
        &alpha_plan,
        false,
        cpu,
        &mut workspace.separate_alpha_arena,
        &mut workspace.separate_alpha_room,
        &mut workspace.separate_alpha_reconstruction,
        &mut reused,
        operators,
    )?;
    let alpha: PlanarSamples = take_alpha_component(components)?;
    workspace.count_reuse(reused);
    Ok(alpha)
}

/// Decodes the planes of an input.
fn reconstruct_with_workspace<
    K: Fn(Kernel, [i32; 16]) -> Option<[i32; 16]>,
    P: Fn(HighPassKernel, [i32; 256]) -> Option<[i32; 256]>,
    V: Fn(&CoefficientArena) -> Result<(), JxrError>,
    E: Fn(&[u8], &ParsedCodestream, &PreparedPlan, CoefficientArena) -> (
        Result<bool, TileDecodeError>,
        CoefficientArena,
    ),
    O: Fn(PixelOperator, [i64; 3]) -> Option<i64>,
    C: Fn(&ImageInfo) -> bool,
    L: Fn(PlanLimit) -> Result<(), JxrError>,
    D: Fn(&DecodedImage) -> Result<(), JxrError>,
>(
    source: &[u8],
    parsed: &ParsedCodestream,
    plan: &PreparedPlan,
    primary_plan: &PreparedPlan,
    request: &DecodeRequest,
    cpu: CpuCapabilities,
    decode_alpha: bool,
    workspace: &mut CpuDecodeWorkspace,
    operators: &DecodeOperators<K, P, V, E, O, C, L, D>,
) -> (result: Result<(Vec<PlanarSamples>, Option<PlanarSamples>), JxrError>)
    requires
        ready(*operators),
        alpha::alpha_is_plannable(parsed@),
    ensures
        final(workspace).continues(*old(workspace)),
        result matches Ok((components, alpha)) ==> {
            &&& components@.len() <= final(workspace).primary_reconstruction@.len()
            &&& plan.info.alpha_mode == AlphaMode::Integrated && alpha is Some ==> components@.len()
                < final(workspace).primary_arena@.planes.len()
            &&& components@.len() <= final(workspace).primary_arena@.planes.len()
            &&& alpha is Some == decode_alpha
            &&& alpha is Some && plan.info.alpha_mode != AlphaMode::Integrated ==> final(
                workspace
            ).separate_alpha_arena@.planes.len() >= 1
            &&& used(
                *old(workspace),
                *final(workspace),
                source,
                parsed,
                primary_plan,
                decode_alpha && plan.info.alpha_mode != AlphaMode::Integrated,
                operators.entropy,
            )
        },
        forall|rules: DecodeRules| #[trigger]
            follow(*operators, rules) ==> planes_agree(
                result,
                input_planes(
                    source@,
                    parsed@,
                    plan@,
                    primary_plan@,
                    *request,
                    decode_alpha,
                    rules,
                ),
            ),
{
    let integrated: bool = plan.info.alpha_mode == AlphaMode::Integrated;
    let mut reused: bool = false;
    let planes: Result<(Vec<PlanarSamples>, Option<PlanarSamples>), JxrError> =
        reconstruct_codestream(
        source,
        parsed,
        primary_plan,
        integrated,
        cpu,
        &mut workspace.primary_arena,
        &mut workspace.primary_room,
        &mut workspace.primary_reconstruction,
        &mut reused,
        operators,
    );
    workspace.count_reuse(reused);
    let (components, integrated_alpha) = planes?;
    let ghost middle = *workspace;
    assert(served(
        *old(workspace),
        middle,
        middle.arena_reuses(),
        source,
        parsed,
        primary_plan,
        operators.entropy,
    ));
    proof {
        lemma_primary_used(
            *old(workspace),
            middle,
            source,
            parsed,
            primary_plan,
            operators.entropy,
        );
    }
    if decode_alpha {
        if integrated {
            return Ok((components, integrated_alpha));
        }
        let alpha: PlanarSamples = reconstruct_separate_alpha(
            source,
            parsed,
            plan,
            request,
            cpu,
            workspace,
            operators,
        )?;
        proof {
            lemma_both_used(
                *old(workspace),
                middle,
                *workspace,
                source,
                parsed,
                primary_plan,
                operators.entropy,
            );
        }
        return Ok((components, Some(alpha)));
    }
    if let Some(alpha) = integrated_alpha {
        workspace.primary_reconstruction.recycle_component(components.len(), alpha);
    }
    proof {
        reconstruction::lemma_planes_do_not_matter(
            old(workspace).primary_reconstruction@,
            middle.primary_reconstruction@,
            workspace.primary_reconstruction@,
            workspace.primary_arena@,
            primary_plan@,
        );
        reconstruction::lemma_rooms_stay_known(
            old(workspace).primary_reconstruction@,
            middle.primary_reconstruction@,
            workspace.primary_reconstruction@,
        );
        lemma_primary_used(
            *old(workspace),
            *workspace,
            source,
            parsed,
            primary_plan,
            operators.entropy,
        );
    }
    Ok((components, None))
}

/// A plan without its alpha plane.
pub open spec fn without_alpha(plan: PlanModel) -> PlanModel {
    PlanModel {
        info: plan.info,
        codestream_range: plan.codestream_range,
        primary: plan.primary,
        alpha: None,
        tiles: plan.tiles,
        reconstruction_region: plan.reconstruction_region,
        output_region: plan.output_region,
        decoded_region: plan.decoded_region,
        scale: plan.scale,
        coefficient_bytes: plan.coefficient_bytes,
    }
}

/// The plan by which the components of an input are decoded. Alpha that is not integrated is left
/// out of it.
pub open spec fn primary_plan_of(plan: PlanModel) -> PlanModel {
    if plan.info.alpha_mode == AlphaMode::Integrated {
        plan
    } else {
        without_alpha(plan)
    }
}

/// The planes of an input that is decoded on the portable decoder.
pub open spec fn route_planes(
    source: Seq<u8>,
    parsed: ParsedModel,
    plan: PlanModel,
    primary_plan: PlanModel,
    request: DecodeRequest,
    rules: DecodeRules,
) -> Result<(Seq<PlaneSamples>, Option<PlaneSamples>), JxrError> {
    let decode_alpha = alpha::alpha_policy(parsed, plan, request.alpha);
    if route_error(request.backend) is Some {
        Err(route_error(request.backend)->0)
    } else if decode_alpha is Err {
        Err(decode_alpha->Err_0)
    } else {
        input_planes(source, parsed, plan, primary_plan, request, decode_alpha->Ok_0, rules)
    }
}

/// The image of an input that is decoded on the portable decoder.
pub open spec fn decoded(
    source: Seq<u8>,
    parsed: ParsedModel,
    plan: PlanModel,
    primary_plan: PlanModel,
    request: DecodeRequest,
    cpu: CpuCapabilities,
    rules: DecodeRules,
) -> Result<DecodedModel, JxrError> {
    match route_planes(source, parsed, plan, primary_plan, request, rules) {
        Err(error) => Err(error),
        Ok((components, alpha)) => output::image_of(
            parsed,
            plan,
            request,
            components,
            alpha,
            cpu,
            rules.pixels,
            rules.limits,
            rules.layout,
        ),
    }
}

/// The samples of an input that is decoded into storage of a kind and size.
pub open spec fn decoded_into(
    source: Seq<u8>,
    parsed: ParsedModel,
    plan: PlanModel,
    request: DecodeRequest,
    cpu: CpuCapabilities,
    destination: SamplesModel,
    rules: DecodeRules,
) -> Result<(SamplesModel, StoredModel), JxrError> {
    match route_planes(source, parsed, plan, plan, request, rules) {
        Err(error) => Err(error),
        Ok((components, alpha)) => output::stored_image_of(
            parsed,
            plan,
            request,
            components,
            alpha,
            cpu,
            destination,
            rules.pixels,
        ),
    }
}

/// Decodes an input with the given plan for its components.
fn decode_with_plans<
    K: Fn(Kernel, [i32; 16]) -> Option<[i32; 16]>,
    P: Fn(HighPassKernel, [i32; 256]) -> Option<[i32; 256]>,
    V: Fn(&CoefficientArena) -> Result<(), JxrError>,
    E: Fn(&[u8], &ParsedCodestream, &PreparedPlan, CoefficientArena) -> (
        Result<bool, TileDecodeError>,
        CoefficientArena,
    ),
    O: Fn(PixelOperator, [i64; 3]) -> Option<i64>,
    C: Fn(&ImageInfo) -> bool,
    L: Fn(PlanLimit) -> Result<(), JxrError>,
    D: Fn(&DecodedImage) -> Result<(), JxrError>,
>(
    source: &[u8],
    parsed: &ParsedCodestream,
    plan: &PreparedPlan,
    primary_plan: &PreparedPlan,
    request: &DecodeRequest,
    cpu: CpuCapabilities,
    workspace: &mut CpuDecodeWorkspace,
    operators: &DecodeOperators<K, P, V, E, O, C, L, D>,
) -> (result: Result<DecodedImage, JxrError>)
    requires
        ready(*operators),
        alpha::alpha_is_plannable(parsed@),
    ensures
        final(workspace).continues(*old(workspace)),
        route_error(request.backend) matches Some(error) ==> {
            &&& result is Err && result->Err_0 == error
            &&& *final(workspace) == *old(workspace)
        },
        result matches Ok(image) ==> image.info.metadata == plan.info.metadata,
        result is Ok ==> used(
            *old(workspace),
            *final(workspace),
            source,
            parsed,
            primary_plan,
            decodes_separate_alpha(parsed@, plan@, *request),
            operators.entropy,
        ),
        forall|rules: DecodeRules| #[trigger]
            follow(*operators, rules) ==> output::image_agrees(
                result,
                decoded(source@, parsed@, plan@, primary_plan@, *request, cpu, rules),
            ),
{
    validate_cpu_route(request.backend)?;
    let decode_alpha: bool = validate_alpha_policy(parsed, plan, request.alpha)?;
    let (components, alpha) = reconstruct_with_workspace(
        source,
        parsed,
        plan,
        primary_plan,
        request,
        cpu,
        decode_alpha,
        workspace,
        operators,
    )?;
    let result: Result<DecodedImage, JxrError> = format_image(
        parsed,
        plan,
        request,
        &components,
        &alpha,
        cpu,
        &operators.pixels,
        &operators.limits,
        &operators.layout,
    );
    let ghost before = *workspace;
    let ghost planes = components@;
    let ghost extra = alpha;
    workspace.recycle_reconstruction(plan.info.alpha_mode, components, alpha);
    proof {
        lemma_recycled_stays_used(
            *old(workspace),
            before,
            *workspace,
            if plan.info.alpha_mode == AlphaMode::Integrated {
                with_alpha(planes, extra)
            } else {
                planes
            },
            if plan.info.alpha_mode == AlphaMode::Separate {
                with_alpha(Seq::empty(), extra)
            } else {
                Seq::empty()
            },
            source,
            parsed,
            primary_plan,
            decodes_separate_alpha(parsed@, plan@, *request),
            operators.entropy,
        );
        reconstruction::lemma_rooms_stay_known(
            old(workspace).primary_reconstruction@,
            before.primary_reconstruction@,
            workspace.primary_reconstruction@,
        );
        reconstruction::lemma_rooms_stay_known(
            old(workspace).separate_alpha_reconstruction@,
            before.separate_alpha_reconstruction@,
            workspace.separate_alpha_reconstruction@,
        );
    }
    result
}

/// Run the portable scalar reconstruction route for a prepared request.
///
/// Explicit device requests are strict and are rejected here. Device sessions
/// consume the same prepared plan and coefficient arena through their adapter
/// crates rather than silently retrying through this function.
pub fn decode_cpu<
    K: Fn(Kernel, [i32; 16]) -> Option<[i32; 16]>,
    P: Fn(HighPassKernel, [i32; 256]) -> Option<[i32; 256]>,
    V: Fn(&CoefficientArena) -> Result<(), JxrError>,
    E: Fn(&[u8], &ParsedCodestream, &PreparedPlan, CoefficientArena) -> (
        Result<bool, TileDecodeError>,
        CoefficientArena,
    ),
    O: Fn(PixelOperator, [i64; 3]) -> Option<i64>,
    C: Fn(&ImageInfo) -> bool,
    L: Fn(PlanLimit) -> Result<(), JxrError>,
    D: Fn(&DecodedImage) -> Result<(), JxrError>,
>(
    source: &[u8],
    parsed: &ParsedCodestream,
    plan: &PreparedPlan,
    request: &DecodeRequest,
    cpu: CpuCapabilities,
    operators: &DecodeOperators<K, P, V, E, O, C, L, D>,
) -> (result: Result<DecodedImage, JxrError>)
    requires
        ready(*operators),
        alpha::alpha_is_plannable(parsed@),
    ensures
        route_error(request.backend) matches Some(error) ==> result is Err && result->Err_0
            == error,
        result matches Ok(image) ==> image.info.metadata == plan.info.metadata,
        forall|rules: DecodeRules| #[trigger]
            follow(*operators, rules) ==> output::image_agrees(
                result,
                decoded(
                    source@,
                    parsed@,
                    plan@,
                    primary_plan_of(plan@),
                    *request,
                    cpu,
                    rules,
                ),
            ),
{
    let mut primary_plan: PreparedPlan = plan.clone();
    if plan.info.alpha_mode != AlphaMode::Integrated {
        primary_plan.alpha = None;
    }
    assert(primary_plan@ == primary_plan_of(plan@));
    let mut workspace: CpuDecodeWorkspace = CpuDecodeWorkspace::new();
    decode_with_plans(
        source,
        parsed,
        plan,
        &primary_plan,
        request,
        cpu,
        &mut workspace,
        operators,
    )
}

/// Run CPU decode while retaining coefficient and reconstruction allocations.
pub fn decode_cpu_with_workspace<
    K: Fn(Kernel, [i32; 16]) -> Option<[i32; 16]>,
    P: Fn(HighPassKernel, [i32; 256]) -> Option<[i32; 256]>,
    V: Fn(&CoefficientArena) -> Result<(), JxrError>,
    E: Fn(&[u8], &ParsedCodestream, &PreparedPlan, CoefficientArena) -> (
        Result<bool, TileDecodeError>,
        CoefficientArena,
    ),
    O: Fn(PixelOperator, [i64; 3]) -> Option<i64>,
    C: Fn(&ImageInfo) -> bool,
    L: Fn(PlanLimit) -> Result<(), JxrError>,
    D: Fn(&DecodedImage) -> Result<(), JxrError>,
>(
    source: &[u8],
    parsed: &ParsedCodestream,
    plan: &PreparedPlan,
    request: &DecodeRequest,
    cpu: CpuCapabilities,
    workspace: &mut CpuDecodeWorkspace,
    operators: &DecodeOperators<K, P, V, E, O, C, L, D>,
) -> (result: Result<DecodedImage, JxrError>)
    requires
        ready(*operators),
        alpha::alpha_is_plannable(parsed@),
    ensures
        final(workspace).continues(*old(workspace)),
        route_error(request.backend) matches Some(error) ==> {
            &&& result is Err && result->Err_0 == error
            &&& *final(workspace) == *old(workspace)
        },
        result matches Ok(image) ==> image.info.metadata == plan.info.metadata,
        result is Ok ==> used(
            *old(workspace),
            *final(workspace),
            source,
            parsed,
            plan,
            decodes_separate_alpha(parsed@, plan@, *request),
            operators.entropy,
        ),
        forall|rules: DecodeRules| #[trigger]
            follow(*operators, rules) ==> output::image_agrees(
                result,
                decoded(source@, parsed@, plan@, plan@, *request, cpu, rules),
            ),
{
    decode_with_plans(source, parsed, plan, plan, request, cpu, workspace, operators)
}

/// Decode directly into exact-size caller-owned typed storage.
pub fn decode_cpu_into_with_workspace<
    K: Fn(Kernel, [i32; 16]) -> Option<[i32; 16]>,
    P: Fn(HighPassKernel, [i32; 256]) -> Option<[i32; 256]>,
    V: Fn(&CoefficientArena) -> Result<(), JxrError>,
    E: Fn(&[u8], &ParsedCodestream, &PreparedPlan, CoefficientArena) -> (
        Result<bool, TileDecodeError>,
        CoefficientArena,
    ),
    O: Fn(PixelOperator, [i64; 3]) -> Option<i64>,
    C: Fn(&ImageInfo) -> bool,
    L: Fn(PlanLimit) -> Result<(), JxrError>,
    D: Fn(&DecodedImage) -> Result<(), JxrError>,
>(
    source: &[u8],
    parsed: &ParsedCodestream,
    plan: &PreparedPlan,
    request: &DecodeRequest,
    cpu: CpuCapabilities,
    workspace: &mut CpuDecodeWorkspace,
    destination: &mut DecodedSamples,
    operators: &DecodeOperators<K, P, V, E, O, C, L, D>,
) -> (result: Result<CpuDecodeIntoOutput, JxrError>)
    requires
        ready(*operators),
        alpha::alpha_is_plannable(parsed@),
    ensures
        final(workspace).continues(*old(workspace)),
        final(destination)@.storage == old(destination)@.storage,
        final(destination)@.values.len() == old(destination)@.values.len(),
        route_error(request.backend) matches Some(error) ==> {
            &&& result is Err && result->Err_0 == error
            &&& *final(workspace) == *old(workspace)
            &&& *final(destination) == *old(destination)
        },
        result matches Ok(output) ==> output.info.metadata == plan.info.metadata,
        result is Ok ==> used(
            *old(workspace),
            *final(workspace),
            source,
            parsed,
            plan,
            decodes_separate_alpha(parsed@, plan@, *request),
            operators.entropy,
        ),
        forall|rules: DecodeRules| #[trigger]
            follow(*operators, rules) ==> output::stored_image_agrees(
                result,
                final(destination)@,
                decoded_into(
                    source@,
                    parsed@,
                    plan@,
                    *request,
                    cpu,
                    old(destination)@,
                    rules,
                ),
            ),
{
    validate_cpu_route(request.backend)?;
    let decode_alpha: bool = validate_alpha_policy(parsed, plan, request.alpha)?;
    let (components, alpha) = reconstruct_with_workspace(
        source,
        parsed,
        plan,
        plan,
        request,
        cpu,
        decode_alpha,
        workspace,
        operators,
    )?;
    let result: Result<CpuDecodeIntoOutput, JxrError> = format_image_into(
        parsed,
        plan,
        request,
        &components,
        &alpha,
        cpu,
        destination,
        &operators.pixels,
    );
    let ghost before = *workspace;
    let ghost planes = components@;
    let ghost extra = alpha;
    workspace.recycle_reconstruction(plan.info.alpha_mode, components, alpha);
    proof {
        lemma_recycled_stays_used(
            *old(workspace),
            before,
            *workspace,
            if plan.info.alpha_mode == AlphaMode::Integrated {
                with_alpha(planes, extra)
            } else {
                planes
            },
            if plan.info.alpha_mode == AlphaMode::Separate {
                with_alpha(Seq::empty(), extra)
            } else {
                Seq::empty()
            },
            source,
            parsed,
            plan,
            decodes_separate_alpha(parsed@, plan@, *request),
            operators.entropy,
        );
        reconstruction::lemma_rooms_stay_known(
            old(workspace).primary_reconstruction@,
            before.primary_reconstruction@,
            workspace.primary_reconstruction@,
        );
        reconstruction::lemma_rooms_stay_known(
            old(workspace).separate_alpha_reconstruction@,
            before.separate_alpha_reconstruction@,
            workspace.separate_alpha_reconstruction@,
        );
    }
    result
}

/// Decode directly into an exact-size caller-owned buffer of bytes.
pub fn decode_cpu_u8_into_with_workspace<
    K: Fn(Kernel, [i32; 16]) -> Option<[i32; 16]>,
    P: Fn(HighPassKernel, [i32; 256]) -> Option<[i32; 256]>,
    V: Fn(&CoefficientArena) -> Result<(), JxrError>,
    E: Fn(&[u8], &ParsedCodestream, &PreparedPlan, CoefficientArena) -> (
        Result<bool, TileDecodeError>,
        CoefficientArena,
    ),
    O: Fn(PixelOperator, [i64; 3]) -> Option<i64>,
    C: Fn(&ImageInfo) -> bool,
    L: Fn(PlanLimit) -> Result<(), JxrError>,
    D: Fn(&DecodedImage) -> Result<(), JxrError>,
>(
    source: &[u8],
    parsed: &ParsedCodestream,
    plan: &PreparedPlan,
    request: &DecodeRequest,
    cpu: CpuCapabilities,
    workspace: &mut CpuDecodeWorkspace,
    destination: &mut Vec<u8>,
    operators: &DecodeOperators<K, P, V, E, O, C, L, D>,
) -> (result: Result<CpuDecodeIntoOutput, JxrError>)
    requires
        ready(*operators),
        alpha::alpha_is_plannable(parsed@),
    ensures
        final(workspace).continues(*old(workspace)),
        final(destination)@.len() == old(destination)@.len(),
        route_error(request.backend) matches Some(error) ==> {
            &&& result is Err && result->Err_0 == error
            &&& *final(workspace) == *old(workspace)
            &&& final(destination)@ == old(destination)@
        },
        result matches Ok(output) ==> output.info.metadata == plan.info.metadata,
        result is Ok ==> used(
            *old(workspace),
            *final(workspace),
            source,
            parsed,
            plan,
            decodes_separate_alpha(parsed@, plan@, *request),
            operators.entropy,
        ),
        forall|rules: DecodeRules| #[trigger]
            follow(*operators, rules) ==> output::stored_image_agrees(
                result,
                DecodedSamples::U8(*final(destination))@,
                decoded_into(
                    source@,
                    parsed@,
                    plan@,
                    *request,
                    cpu,
                    DecodedSamples::U8(*old(destination))@,
                    rules,
                ),
            ),
{
    let mut bytes: Vec<u8> = Vec::new();
    std::mem::swap(&mut bytes, destination);
    let mut samples: DecodedSamples = DecodedSamples::U8(bytes);
    let result: Result<CpuDecodeIntoOutput, JxrError> = decode_cpu_into_with_workspace(
        source,
        parsed,
        plan,
        request,
        cpu,
        workspace,
        &mut samples,
        operators,
    );
    match samples {
        DecodedSamples::U8(bytes) => {
            *destination = bytes;
        },
        _ => vstd::pervasive::unreached(),
    }
    result
}

/// Decoding with a retained workspace gives what decoding without one gives, where the plan has no
/// alpha plane besides an integrated one.
pub proof fn lemma_workspace_does_not_matter(
    source: Seq<u8>,
    parsed: ParsedModel,
    plan: PlanModel,
    request: DecodeRequest,
    cpu: CpuCapabilities,
    rules: DecodeRules,
)
    requires
        plan.info.alpha_mode == AlphaMode::Integrated || plan.alpha is None,
    ensures
        decoded(source, parsed, plan, plan, request, cpu, rules) == decoded(
            source,
            parsed,
            plan,
            primary_plan_of(plan),
            request,
            cpu,
            rules,
        ),
{
    assert(primary_plan_of(plan) == plan);
}

/// Decoding into storage of the kind and size of an image gives the samples of that image, and
/// describes them as the image does. Where planes have different sizes, alpha bytes must have been
/// coded as bytes, and the report may differ in the use of vector units.
pub proof fn lemma_direct_decode_equals_owned(
    source: Seq<u8>,
    parsed: ParsedModel,
    plan: PlanModel,
    request: DecodeRequest,
    cpu: CpuCapabilities,
    destination: SamplesModel,
    rules: DecodeRules,
)
    requires
        decoded(source, parsed, plan, plan, request, cpu, rules) matches Ok(image)
            && destination.storage == image.samples.storage && destination.values.len()
            == image.samples.values.len(),
        policy::policy_of(parsed, plan, request) matches Ok(chosen) ==> (is_planar(
            chosen.output_color,
        ) && chosen.bit_depth == OutputBitDepth::U8 ==> chosen.alpha_request().bit_depth
            == OutputBitDepth::U8),
    ensures
        decoded_into(source, parsed, plan, request, cpu, destination, rules) matches Ok(
            (samples, stored),
        ) && {
            let image = decoded(source, parsed, plan, plan, request, cpu, rules)->Ok_0;
            &&& samples == image.samples
            &&& stored.info == image.info
            &&& stored.decoded_region == image.decoded_region
            &&& stored.format == image.format
            &&& stored.planes == image.planes
            &&& !is_planar(policy::policy_of(parsed, plan, request)->Ok_0.output_color)
                ==> stored.report == image.report
        },
{
    let (components, alpha) = route_planes(source, parsed, plan, plan, request, rules)->Ok_0;
    let chosen = policy::policy_of(parsed, plan, request)->Ok_0;
    let planes = output::views_of(components);
    let alpha_plane = output::alpha_view(alpha);
    if is_planar(chosen.output_color) {
        planar_laws::lemma_planar_direct_equals_owned(planes, alpha_plane, chosen, destination);
    } else {
        laws::lemma_formatted_size(planes, alpha_plane, chosen, rules.pixels);
        laws::lemma_direct_equals_owned(planes, alpha_plane, chosen, destination, rules.pixels);
    }
}

} // verus!
