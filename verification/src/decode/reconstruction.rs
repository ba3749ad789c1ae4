//! Scalar reconstruction of the components of an arena.

use crate::codestream::{ParsedCodestream, ParsedModel};
use crate::cpu::CpuCapabilities;
use crate::decode::arena;
use crate::decode::arena::{ArenaModel, CoefficientArena, CoefficientPlane};
use crate::decode::placement;
use crate::decode::placement::{raster_macroblocks, RasterModel, RasterWorkspace};
use crate::decode::unpack;
use crate::decode::unpack::HighPassKernel;
use crate::decode::window;
use crate::decode::window::{reconstruction_window, ReconstructionWindow, WindowModel};
use crate::metadata::InfoModel;
use crate::plan::{PlanModel, PreparedPlan};
use crate::reconstruct::chroma;
use crate::reconstruct::chroma::{reconstruct_chroma_444, ChromaReconstructionConfig};
use crate::reconstruct::contract::{
    ConfigModel, PlanarSamples, PlaneSamples, QuantizedMacroblock, ReconstructionConfig,
    ReconstructionError,
};
use crate::reconstruct::kernels;
use crate::reconstruct::kernels::Kernel;
use crate::reconstruct::pipeline;
use crate::reconstruct::pipeline::{
    reconstruct_luma_scaled_with_cpu, PipelineModel, ReconstructionPipelineWorkspace,
};
use crate::types::{ColorFormat, DecodeScale, JxrError, JxrErrorKind};
use vstd::prelude::*;

verus! {

/// Operators that reconstruction is run with.
pub struct ReconstructionOperators<K, P, V> {
    /// Transforms and filters.
    pub kernels: K,
    /// Prediction of high-pass coefficients.
    pub prediction: P,
    /// Check of an arena.
    pub check: V,
}

/// What the operators of a reconstruction compute.
pub struct ReconstructionRules {
    /// Transforms and filters.
    pub kernels: spec_fn(Kernel, Seq<i32>) -> Option<Seq<i32>>,
    /// Prediction of high-pass coefficients.
    pub prediction: spec_fn(HighPassKernel, Seq<i32>) -> Option<Seq<i32>>,
    /// Check of an arena.
    pub check: spec_fn(ArenaModel) -> Result<(), JxrError>,
}

/// Whether the operators can be run.
pub open spec fn ready<
    K: Fn(Kernel, [i32; 16]) -> Option<[i32; 16]>,
    P: Fn(HighPassKernel, [i32; 256]) -> Option<[i32; 256]>,
    V: Fn(&CoefficientArena) -> Result<(), JxrError>,
>(operators: ReconstructionOperators<K, P, V>) -> bool {
    &&& kernels::callable(operators.kernels)
    &&& unpack::runnable(operators.prediction)
    &&& arena::guards(operators.check)
}

/// Whether the operators compute what the rules say.
pub open spec fn follow<
    K: Fn(Kernel, [i32; 16]) -> Option<[i32; 16]>,
    P: Fn(HighPassKernel, [i32; 256]) -> Option<[i32; 256]>,
    V: Fn(&CoefficientArena) -> Result<(), JxrError>,
>(operators: ReconstructionOperators<K, P, V>, rules: ReconstructionRules) -> bool {
    &&& kernels::runs(operators.kernels, rules.kernels)
    &&& unpack::predicts(operators.prediction, rules.prediction)
    &&& arena::examines(operators.check, rules.check)
}

/// The decode failure for a reconstruction failure.
#[verifier::allow_in_spec]
pub fn map_reconstruction_error(error: ReconstructionError) -> JxrError
    returns
        (JxrError {
            kind: match error {
                ReconstructionError::ArithmeticOverflow(_) => JxrErrorKind::ArithmeticOverflow,
                ReconstructionError::Unsupported(_) => JxrErrorKind::Unsupported,
                ReconstructionError::BufferTooSmall { required, available } => {
                    JxrErrorKind::BufferTooSmall { required, available }
                },
                _ => JxrErrorKind::InvalidSyntax,
            },
            operation: "reconstruct samples",
        }),
{
    let kind: JxrErrorKind = match error {
        ReconstructionError::ArithmeticOverflow(_) => JxrErrorKind::ArithmeticOverflow,
        ReconstructionError::Unsupported(_) => JxrErrorKind::Unsupported,
        ReconstructionError::BufferTooSmall { required, available } => {
            JxrErrorKind::BufferTooSmall { required, available }
        },
        _ => JxrErrorKind::InvalidSyntax,
    };
    JxrError::new(kind, "reconstruct samples")
}

/// What the buffers of a component have room for, and how often they were large enough.
pub struct ComponentModel {
    /// Buffers for macroblocks in raster order.
    pub raster: RasterModel,
    /// Transform buffers and output plane.
    pub pipeline: PipelineModel,
}

impl ComponentModel {
    /// Buffers that hold nothing.
    pub open spec fn empty() -> ComponentModel {
        ComponentModel { raster: RasterModel::empty(), pipeline: PipelineModel::empty() }
    }

    /// Buffers that were large enough when they were needed again.
    pub open spec fn reuses(self) -> int {
        self.raster.reuses + self.pipeline.buffer_reuses + self.pipeline.plane_reuses
    }

    /// Bytes that all buffers have room for.
    pub open spec fn bytes(self) -> int {
        self.raster.bytes() + self.pipeline.bytes()
    }

    /// The same buffers with another output plane.
    pub open spec fn with_plane(self, room: usize) -> ComponentModel {
        ComponentModel {
            pipeline: PipelineModel { plane_room: room, ..self.pipeline },
            ..self
        }
    }
}

/// Whether the recorded rooms of a component are those from before, or what buffers were found to
/// have room for.
pub open spec fn rooms_known(before: ComponentModel, after: ComponentModel) -> bool {
    &&& placement::rooms_known(before.raster, after.raster)
    &&& pipeline::rooms_known(before.pipeline, after.pipeline)
}

/// Whether no counter went up by more than one, and the rooms are known.
pub open spec fn advanced(before: ComponentModel, after: ComponentModel) -> bool {
    &&& pipeline::stepped(before.raster.reuses, after.raster.reuses)
    &&& pipeline::stepped(before.pipeline.buffer_reuses, after.pipeline.buffer_reuses)
    &&& pipeline::stepped(before.pipeline.plane_reuses, after.pipeline.plane_reuses)
    &&& rooms_known(before, after)
}

/// Whether the buffers of a component were used for its reconstruction: each counter went up where
/// the buffers were large enough before, and they are large enough now.
pub open spec fn component_used(
    before: ComponentModel,
    after: ComponentModel,
    config: ConfigModel,
    scale: DecodeScale,
) -> bool {
    &&& placement::used(before.raster, after.raster, config.macroblocks_y * config.macroblocks_x)
    &&& pipeline::used(before.pipeline, after.pipeline, config, scale)
}

/// Whether the buffers of a component took back a plane, if it has more room than the retained one.
pub open spec fn took_back(
    before: ComponentModel,
    after: ComponentModel,
    samples: Vec<i32>,
) -> bool {
    &&& after == before.with_plane(after.pipeline.plane_room)
    &&& pipeline::keeps_room(before.pipeline.plane_room, after.pipeline.plane_room, samples@.len())
    &&& pipeline::raised(before.pipeline.plane_room, samples, after.pipeline.plane_room)
}

/// Repeated reconstruction reuses its buffers: where the plane of a component was taken back, a
/// second reconstruction of the same size counts each buffer that it needs.
pub proof fn lemma_repetition_reuses_buffers(
    before: ComponentModel,
    between: ComponentModel,
    recycled: ComponentModel,
    after: ComponentModel,
    samples: Vec<i32>,
    config: ConfigModel,
    scale: DecodeScale,
)
    requires
        component_used(before, between, config, scale),
        took_back(between, recycled, samples),
        samples@.len() >= pipeline::sample_total(config, scale),
        component_used(recycled, after, config, scale),
    ensures
        after.raster.reuses == pipeline::counted(between.raster.reuses, true),
        after.pipeline.buffer_reuses == pipeline::counted(
            between.pipeline.buffer_reuses,
            scale != DecodeScale::Sixteenth,
        ),
        after.pipeline.plane_reuses == pipeline::counted(between.pipeline.plane_reuses, true),
{
}

/// Buffers for one component.
#[derive(Debug)]
struct ComponentWorkspace {
    raster: RasterWorkspace,
    pipeline: ReconstructionPipelineWorkspace,
}

impl ComponentWorkspace {
    spec fn model(&self) -> ComponentModel {
        ComponentModel { raster: self.raster@, pipeline: self.pipeline@ }
    }

    fn new() -> (workspace: Self)
        ensures
            workspace.model() == ComponentModel::empty(),
    {
        ComponentWorkspace {
            raster: RasterWorkspace::new(),
            pipeline: ReconstructionPipelineWorkspace::new(),
        }
    }
}

/// Buffers for the components of an image.
#[derive(Debug)]
pub struct ReconstructionWorkspace {
    components: Vec<ComponentWorkspace>,
}

spec fn models(components: Seq<ComponentWorkspace>) -> Seq<ComponentModel> {
    Seq::new(components.len(), |index: int| components[index].model())
}

/// Buffers of the first components that were large enough when they were needed again.
pub open spec fn reuse_sum(components: Seq<ComponentModel>, count: nat) -> int
    decreases count,
{
    if count == 0 {
        0
    } else {
        reuse_sum(components, (count - 1) as nat) + components[count - 1].reuses()
    }
}

/// Bytes that the buffers of the first components have room for.
pub open spec fn byte_sum(components: Seq<ComponentModel>, count: nat) -> int
    decreases count,
{
    if count == 0 {
        0
    } else {
        byte_sum(components, (count - 1) as nat) + components[count - 1].bytes()
    }
}

/// More components have at least as many reuses, and larger counts give a larger sum.
proof fn lemma_reuse_sum(
    before: Seq<ComponentModel>,
    after: Seq<ComponentModel>,
    some: nat,
    count: nat,
)
    requires
        some <= count,
        forall|index: int|
            0 <= index < some ==> (#[trigger] before[index]).reuses() <= after[index].reuses(),
    ensures
        0 <= reuse_sum(before, some) <= reuse_sum(after, count),
    decreases count,
{
    if some < count {
        lemma_reuse_sum(before, after, some, (count - 1) as nat);
    } else if count > 0 {
        lemma_reuse_sum(before, after, (count - 1) as nat, (count - 1) as nat);
        assert(before[count - 1].reuses() <= after[count - 1].reuses());
    }
}

/// Buffers have room for no negative number of bytes.
proof fn lemma_component_bytes(model: ComponentModel)
    ensures
        model.raster.bytes() >= 0,
        model.pipeline.bytes() >= 0,
{
    assert(model.raster.macroblock_room * vstd::layout::size_of::<QuantizedMacroblock>() >= 0
        && model.raster.slot_room * vstd::layout::size_of::<usize>() >= 0) by (nonlinear_arith);
}

impl View for ReconstructionWorkspace {
    type V = Seq<ComponentModel>;

    closed spec fn view(&self) -> Seq<ComponentModel> {
        models(self.components@)
    }
}

impl ReconstructionWorkspace {
    /// Buffers that were large enough when they were needed again.
    pub open spec fn reuse_total(&self) -> int {
        reuse_sum(self@, self@.len())
    }

    /// Bytes that all buffers have room for.
    pub open spec fn byte_total(&self) -> int {
        byte_sum(self@, self@.len())
    }

    /// Creates a workspace without buffers.
    pub fn new() -> (workspace: Self)
        ensures
            workspace@ == Seq::<ComponentModel>::empty(),
    {
        let workspace: ReconstructionWorkspace = ReconstructionWorkspace {
            components: Vec::new(),
        };
        assert(workspace@ =~= Seq::<ComponentModel>::empty());
        workspace
    }

    /// Returns how many buffers were large enough when they were needed again.
    pub fn reuses(&self) -> (count: u64)
        ensures
            count == (if self.reuse_total() > u64::MAX {
                u64::MAX as int
            } else {
                self.reuse_total()
            }),
    {
        let mut count: u64 = 0;
        for index in 0..self.components.len()
            invariant
                count == (if reuse_sum(self@, index as nat) > u64::MAX {
                    u64::MAX as int
                } else {
                    reuse_sum(self@, index as nat)
                }),
                reuse_sum(self@, index as nat) >= 0,
        {
            let component: &ComponentWorkspace = &self.components[index];
            assert(self@[index as int] == component.model());
            count = count.saturating_add(
                component.raster.reuses().saturating_add(component.pipeline.reuses()),
            );
        }
        count
    }

    /// Returns the bytes retained by all buffers.
    pub fn retained_bytes(&self) -> (bytes: usize)
        ensures
            bytes == pipeline::capped(self.byte_total()),
            self.byte_total() >= 0,
    {
        let mut bytes: usize = 0;
        for index in 0..self.components.len()
            invariant
                bytes == pipeline::capped(byte_sum(self@, index as nat)),
                byte_sum(self@, index as nat) >= 0,
        {
            let component: &ComponentWorkspace = &self.components[index];
            proof {
                assert(self@[index as int] == component.model());
                lemma_component_bytes(component.model());
            }
            bytes = bytes.saturating_add(component.raster.retained_bytes()).saturating_add(
                component.pipeline.retained_bytes(),
            );
        }
        bytes
    }

    /// Takes back the plane of a component, if there are buffers for the component.
    pub fn recycle_component(&mut self, index: usize, component: PlanarSamples)
        ensures
            final(self).reuse_total() == old(self).reuse_total(),
            final(self)@.len() == old(self)@.len(),
            index < old(self)@.len() ==> took_back(
                old(self)@[index as int],
                final(self)@[index as int],
                component.samples,
            ),
            forall|other: int|
                0 <= other < old(self)@.len() && other != index ==> #[trigger] final(
                    self
                )@[other] == old(self)@[other],
    {
        if index < self.components.len() {
            let ghost before = self@;
            let workspace: &mut ComponentWorkspace = &mut self.components[index];
            workspace.pipeline.recycle_samples(component.samples);
            proof {
                lemma_reuse_sum(before, self@, before.len(), before.len());
                lemma_reuse_sum(self@, before, before.len(), before.len());
            }
        }
    }

    /// Takes back the planes of all components.
    pub fn recycle_components(&mut self, components: Vec<PlanarSamples>)
        requires
            components@.len() <= old(self)@.len(),
        ensures
            final(self).reuse_total() == old(self).reuse_total(),
            final(self)@.len() == old(self)@.len(),
            forall|index: int|
                0 <= index < components@.len() ==> took_back(
                    old(self)@[index],
                    #[trigger] final(self)@[index],
                    components@[index].samples,
                ),
            forall|other: int|
                components@.len() <= other < old(self)@.len() ==> #[trigger] final(self)@[other]
                    == old(self)@[other],
    {
        let ghost planes = components@;
        let mut components: Vec<PlanarSamples> = components;
        while components.len() > 0
            invariant
                self.reuse_total() == old(self).reuse_total(),
                self@.len() == old(self)@.len(),
                components@.len() <= planes.len() <= old(self)@.len(),
                components@ == planes.take(components@.len() as int),
                forall|index: int|
                    components@.len() <= index < planes.len() ==> took_back(
                        old(self)@[index],
                        #[trigger] self@[index],
                        planes[index].samples,
                    ),
                forall|other: int|
                    (0 <= other < components@.len() || planes.len() <= other
                        < old(self)@.len()) ==> #[trigger] self@[other] == old(self)@[other],
            decreases components@.len(),
        {
            match components.pop() {
                Some(component) => self.recycle_component(components.len(), component),
                None => {},
            }
        }
    }
}

/// The reconstruction geometry of a component.
pub open spec fn config_for(
    plane: CoefficientPlane,
    doubled: bool,
    plan: PlanModel,
    window: WindowModel,
) -> ConfigModel {
    ConfigModel {
        macroblock_origin_x: window.origin_x,
        macroblock_origin_y: window.origin_y,
        macroblocks_x: window.width,
        macroblocks_y: window.height,
        block_columns: plane.block_columns,
        block_rows: plane.block_rows,
        scale_after_first_transform: doubled,
        overlap: plan.primary.overlap,
        tiles: window.tiles,
    }
}

/// The samples of a component.
pub open spec fn component_of(
    arena: ArenaModel,
    plane: CoefficientPlane,
    doubled: bool,
    plan: PlanModel,
    window: WindowModel,
    rules: ReconstructionRules,
) -> Result<PlaneSamples, JxrError> {
    match placement::rastered_macroblocks(arena, plane, window, rules.prediction) {
        Err(error) => Err(error),
        Ok(macroblocks) => match pipeline::reconstructed(
            macroblocks,
            config_for(plane, doubled, plan, window),
            plan.scale,
            rules.kernels,
        ) {
            Err(error) => Err(map_reconstruction_error(error)),
            Ok(samples) => Ok(samples),
        },
    }
}

/// Whether an executable plane is the one that is expected.
pub open spec fn plane_agrees(
    result: Result<PlanarSamples, JxrError>,
    expected: Result<PlaneSamples, JxrError>,
) -> bool {
    match (result, expected) {
        (Ok(plane), Ok(expected)) => plane@ == expected,
        (Err(error), Err(expected)) => error == expected,
        _ => false,
    }
}

fn reconstruct_component<
    K: Fn(Kernel, [i32; 16]) -> Option<[i32; 16]>,
    P: Fn(HighPassKernel, [i32; 256]) -> Option<[i32; 256]>,
    V: Fn(&CoefficientArena) -> Result<(), JxrError>,
>(
    arena: &CoefficientArena,
    plane: &CoefficientPlane,
    doubled: bool,
    plan: &PreparedPlan,
    window: &ReconstructionWindow,
    cpu: CpuCapabilities,
    workspace: &mut ComponentWorkspace,
    operators: &ReconstructionOperators<K, P, V>,
) -> (result: Result<PlanarSamples, JxrError>)
    requires
        ready(*operators),
        arena@.describes(*plane),
        plane.block_columns * plane.block_rows <= 16,
    ensures
        advanced(old(workspace).model(), final(workspace).model()),
        result is Ok ==> component_used(
            old(workspace).model(),
            final(workspace).model(),
            config_for(*plane, false, plan@, window@),
            plan.scale,
        ),
        forall|rules: ReconstructionRules| #[trigger]
            follow(*operators, rules) ==> plane_agrees(
                result,
                component_of(arena@, *plane, doubled, plan@, window@, rules),
            ),
{
    raster_macroblocks(
        arena,
        plane,
        window,
        &mut workspace.raster,
        &operators.prediction,
    )?;
    let config: ReconstructionConfig = ReconstructionConfig {
        macroblock_origin_x: window.origin_x,
        macroblock_origin_y: window.origin_y,
        macroblocks_x: window.width,
        macroblocks_y: window.height,
        block_columns: plane.block_columns,
        block_rows: plane.block_rows,
        scale_after_first_transform: doubled,
        overlap: plan.primary.overlap,
        tiles: window.tiles.clone(),
    };
    assert(config@ == config_for(*plane, doubled, plan@, window@));
    match reconstruct_luma_scaled_with_cpu(
        workspace.raster.macroblocks(),
        &config,
        plan.scale,
        cpu,
        &mut workspace.pipeline,
        &operators.kernels,
    ) {
        Ok(samples) => Ok(samples),
        Err(error) => Err(map_reconstruction_error(error)),
    }
}

/// Whether the coefficients of a component are doubled after the first transform.
pub open spec fn is_doubled(info: InfoModel, component: int) -> bool {
    component != 0 && info.primary.scaled && info.primary.color_format is Yuv
}

/// The samples of the first components.
pub open spec fn components_of(
    arena: ArenaModel,
    plan: PlanModel,
    window: WindowModel,
    count: nat,
    rules: ReconstructionRules,
) -> Result<Seq<PlaneSamples>, JxrError>
    decreases count,
{
    if count == 0 {
        Ok(Seq::empty())
    } else {
        match components_of(arena, plan, window, (count - 1) as nat, rules) {
            Err(error) => Err(error),
            Ok(earlier) => match component_of(
                arena,
                arena.planes[count - 1],
                is_doubled(plan.info, count - 1),
                plan,
                window,
                rules,
            ) {
                Err(error) => Err(error),
                Ok(samples) => Ok(earlier.push(samples)),
            },
        }
    }
}

/// Once a component is refused, later ones do not matter.
proof fn lemma_components_stop(
    arena: ArenaModel,
    plan: PlanModel,
    window: WindowModel,
    some: nat,
    count: nat,
    rules: ReconstructionRules,
)
    requires
        some <= count,
        components_of(arena, plan, window, some, rules) is Err,
    ensures
        components_of(arena, plan, window, count, rules) == components_of(
            arena,
            plan,
            window,
            some,
            rules,
        ),
    decreases count,
{
    if some < count {
        lemma_components_stop(arena, plan, window, some, (count - 1) as nat, rules);
    }
}

/// Planes as values of the model.
pub open spec fn plane_samples(planes: Seq<PlanarSamples>) -> Seq<PlaneSamples> {
    Seq::new(planes.len(), |index: int| planes[index]@)
}

/// Whether executable planes are the ones that are expected.
pub open spec fn planes_agree(
    result: Result<Vec<PlanarSamples>, JxrError>,
    expected: Result<Seq<PlaneSamples>, JxrError>,
) -> bool {
    match (result, expected) {
        (Ok(planes), Ok(expected)) => plane_samples(planes@) == expected,
        (Err(error), Err(expected)) => error == expected,
        _ => false,
    }
}

/// Whether no counter of any component went up by more than one, and all rooms are known.
pub open spec fn all_advanced(before: Seq<ComponentModel>, after: Seq<ComponentModel>) -> bool {
    before.len() <= after.len() && forall|index: int|
        0 <= index < before.len() ==> advanced(#[trigger] before[index], after[index])
}

/// The buffers of a workspace with those that are made for more components.
pub open spec fn enlarged(models: Seq<ComponentModel>, count: nat) -> Seq<ComponentModel> {
    if models.len() >= count {
        models
    } else {
        models + Seq::new((count - models.len()) as nat, |index: int| ComponentModel::empty())
    }
}

/// Whether the recorded rooms of all components are those from before, or what buffers were found
/// to have room for. Components that were not there before had room for nothing.
pub open spec fn all_rooms_known(before: Seq<ComponentModel>, after: Seq<ComponentModel>) -> bool {
    before.len() <= after.len() && forall|index: int|
        0 <= index < after.len() ==> rooms_known(
            enlarged(before, after.len())[index],
            #[trigger] after[index],
        )
}

/// Rooms stay known from one step to the next.
pub(crate) proof fn lemma_rooms_stay_known(
    before: Seq<ComponentModel>,
    middle: Seq<ComponentModel>,
    after: Seq<ComponentModel>,
)
    requires
        all_rooms_known(before, middle),
        all_rooms_known(middle, after),
    ensures
        all_rooms_known(before, after),
{
    assert forall|index: int| 0 <= index < after.len() implies rooms_known(
        enlarged(before, after.len())[index],
        #[trigger] after[index],
    ) by {
        assert(rooms_known(enlarged(middle, after.len())[index], after[index]));
        if index < middle.len() {
            assert(rooms_known(enlarged(before, middle.len())[index], middle[index]));
        }
    }
}

/// Rooms are known where some components took back a plane and the others are as they were.
pub(crate) proof fn lemma_taken_back_is_known(
    before: Seq<ComponentModel>,
    after: Seq<ComponentModel>,
    planes: Seq<PlanarSamples>,
)
    requires
        after.len() == before.len(),
        forall|index: int|
            0 <= index < before.len() ==> if index < planes.len() {
                took_back(before[index], #[trigger] after[index], planes[index].samples)
            } else {
                after[index] == before[index]
            },
    ensures
        all_rooms_known(before, after),
{
    assert forall|index: int| 0 <= index < after.len() implies rooms_known(
        enlarged(before, after.len())[index],
        #[trigger] after[index],
    ) by {
        assert(enlarged(before, after.len())[index] == before[index]);
    }
}

/// Whether the buffers of the first components were used for their reconstruction, and those of the
/// others left alone.
pub open spec fn all_used(
    before: Seq<ComponentModel>,
    after: Seq<ComponentModel>,
    planes: Seq<CoefficientPlane>,
    plan: PlanModel,
    window: WindowModel,
    count: int,
) -> bool {
    &&& after.len() == before.len()
    &&& forall|index: int|
        0 <= index < count ==> component_used(
            before[index],
            #[trigger] after[index],
            config_for(planes[index], false, plan, window),
            plan.scale,
        )
    &&& forall|index: int|
        count <= index < before.len() ==> #[trigger] after[index] == before[index]
}

/// The use of the buffers of the first components counts once.
proof fn lemma_used_once(
    before: Seq<ComponentModel>,
    after: Seq<ComponentModel>,
    planes: Seq<CoefficientPlane>,
    plan: PlanModel,
    window: WindowModel,
    count: int,
)
    requires
        all_used(before, after, planes, plan, window, count),
    ensures
        all_advanced(before, after),
{
    assert forall|index: int| 0 <= index < before.len() implies advanced(
        #[trigger] before[index],
        after[index],
    ) by {
        if index < count {
            assert(component_used(
                before[index],
                after[index],
                config_for(planes[index], false, plan, window),
                plan.scale,
            ));
        } else {
            assert(after[index] == before[index]);
        }
    }
}

/// The buffers of one more component are used.
proof fn lemma_one_more_used(
    before: Seq<ComponentModel>,
    middle: Seq<ComponentModel>,
    after: Seq<ComponentModel>,
    planes: Seq<CoefficientPlane>,
    plan: PlanModel,
    window: WindowModel,
    count: int,
)
    requires
        all_used(before, middle, planes, plan, window, count),
        0 <= count < before.len(),
        after.len() == middle.len(),
        forall|index: int|
            0 <= index < middle.len() && index != count ==> #[trigger] after[index]
                == middle[index],
        advanced(middle[count], after[count]),
    ensures
        all_advanced(before, after),
        component_used(
            middle[count],
            after[count],
            config_for(planes[count], false, plan, window),
            plan.scale,
        ) ==> all_used(before, after, planes, plan, window, count + 1),
{
    lemma_used_once(before, middle, planes, plan, window, count);
    assert(middle[count] == before[count]);
    assert forall|index: int| 0 <= index < before.len() implies advanced(
        #[trigger] before[index],
        after[index],
    ) by {
        assert(advanced(before[index], middle[index]));
        assert(index != count ==> after[index] == middle[index]);
    }
}

/// Other output planes change nothing in the use of the buffers.
proof fn lemma_other_planes(
    before: Seq<ComponentModel>,
    middle: Seq<ComponentModel>,
    after: Seq<ComponentModel>,
    planes: Seq<CoefficientPlane>,
    plan: PlanModel,
    window: WindowModel,
    count: int,
)
    requires
        all_used(before, middle, planes, plan, window, count),
        0 <= count <= before.len(),
        planes_replaced(middle, after, count),
    ensures
        all_used(before, after, planes, plan, window, count),
{
    assert forall|index: int| 0 <= index < count implies component_used(
        before[index],
        #[trigger] after[index],
        config_for(planes[index], false, plan, window),
        plan.scale,
    ) by {
        assert(component_used(
            before[index],
            middle[index],
            config_for(planes[index], false, plan, window),
            plan.scale,
        ));
    }
    assert forall|index: int| count <= index < before.len() implies #[trigger] after[index]
        == before[index] by {
        assert(after[index] == middle[index]);
    }
}

/// Counters that went up by one at most have no smaller sum.
proof fn lemma_counted_sum(before: Seq<ComponentModel>, after: Seq<ComponentModel>)
    requires
        all_advanced(before, after),
    ensures
        0 <= reuse_sum(before, before.len()) <= reuse_sum(after, after.len()),
{
    assert forall|index: int| 0 <= index < before.len() implies (#[trigger] before[index]).reuses()
        <= after[index].reuses() by {
        assert(advanced(before[index], after[index]));
    }
    lemma_reuse_sum(before, after, before.len(), after.len());
}

fn reconstruct_planes<
    K: Fn(Kernel, [i32; 16]) -> Option<[i32; 16]>,
    P: Fn(HighPassKernel, [i32; 256]) -> Option<[i32; 256]>,
    V: Fn(&CoefficientArena) -> Result<(), JxrError>,
>(
    arena: &CoefficientArena,
    plan: &PreparedPlan,
    window: &ReconstructionWindow,
    count: usize,
    cpu: CpuCapabilities,
    workspaces: &mut Vec<ComponentWorkspace>,
    operators: &ReconstructionOperators<K, P, V>,
) -> (result: Result<Vec<PlanarSamples>, JxrError>)
    requires
        ready(*operators),
        arena@.wf(),
        count <= arena@.planes.len(),
        count <= old(workspaces)@.len(),
    ensures
        models(final(workspaces)@).len() == models(old(workspaces)@).len(),
        all_advanced(models(old(workspaces)@), models(final(workspaces)@)),
        result is Ok ==> all_used(
            models(old(workspaces)@),
            models(final(workspaces)@),
            arena@.planes,
            plan@,
            window@,
            count as int,
        ),
        result matches Ok(planes) ==> planes@.len() == count,
        forall|rules: ReconstructionRules| #[trigger]
            follow(*operators, rules) ==> planes_agree(
                result,
                components_of(arena@, plan@, window@, count as nat, rules),
            ),
{
    let colored: bool = match plan.info.primary.color_format {
        ColorFormat::Yuv(_) => true,
        _ => false,
    };
    let mut planes: Vec<PlanarSamples> = Vec::new();
    assert(plane_samples(planes@) =~= Seq::<PlaneSamples>::empty());
    for component in 0..count
        invariant
            ready(*operators),
            arena@.wf(),
            count <= arena@.planes.len(),
            count <= workspaces@.len(),
            colored == (plan@.info.primary.color_format is Yuv),
            workspaces@.len() == old(workspaces)@.len(),
            all_used(
                models(old(workspaces)@),
                models(workspaces@),
                arena@.planes,
                plan@,
                window@,
                component as int,
            ),
            planes@.len() == component,
            forall|rules: ReconstructionRules| #[trigger]
                follow(*operators, rules) ==> components_of(
                    arena@,
                    plan@,
                    window@,
                    component as nat,
                    rules,
                ) == Ok::<Seq<PlaneSamples>, JxrError>(plane_samples(planes@)),
    {
        proof {
            assert(arena@.describes(arena@.planes[component as int]));
            assert forall|rules: ReconstructionRules| #[trigger]
                follow(*operators, rules) && components_of(
                    arena@,
                    plan@,
                    window@,
                    (component + 1) as nat,
                    rules,
                ) is Err implies components_of(arena@, plan@, window@, count as nat, rules)
                == components_of(arena@, plan@, window@, (component + 1) as nat, rules) by {
                lemma_components_stop(
                    arena@,
                    plan@,
                    window@,
                    (component + 1) as nat,
                    count as nat,
                    rules,
                );
            }
        }
        let doubled: bool = component != 0 && plan.info.primary.scaled && colored;
        let plane: CoefficientPlane = arena.planes[component];
        let ghost earlier = models(workspaces@);
        let workspace: &mut ComponentWorkspace = &mut workspaces[component];
        let reconstructed: Result<PlanarSamples, JxrError> = reconstruct_component(
            arena,
            &plane,
            doubled,
            plan,
            window,
            cpu,
            workspace,
            operators,
        );
        proof {
            lemma_one_more_used(
                models(old(workspaces)@),
                earlier,
                models(workspaces@),
                arena@.planes,
                plan@,
                window@,
                component as int,
            );
        }
        let samples: PlanarSamples = reconstructed?;
        let ghost before = planes@;
        planes.push(samples);
        assert(plane_samples(planes@) =~= plane_samples(before).push(samples@));
    }
    proof {
        lemma_used_once(
            models(old(workspaces)@),
            models(workspaces@),
            arena@.planes,
            plan@,
            window@,
            count as int,
        );
    }
    Ok(planes)
}

/// The components of an image with chroma at the resolution of luma, where that is needed.
pub open spec fn upsampled(
    parsed: ParsedModel,
    components: Seq<PlaneSamples>,
    scale: DecodeScale,
    rule: spec_fn(Kernel, Seq<i32>) -> Option<Seq<i32>>,
) -> Result<Seq<PlaneSamples>, JxrError> {
    let coded = parsed.headers.primary.internal_color_format;
    let output = parsed.headers.image.output_color_format;
    if coded != 1 && coded != 2 {
        Ok(components)
    } else if components.len() != 3 {
        Err(JxrError::new(JxrErrorKind::InternalInvariant, "subsampled YUV component count"))
    } else if output == 1 || output == 2 || scale == DecodeScale::Sixteenth {
        Ok(components)
    } else {
        let config = chroma::config_of(
            parsed.headers.primary,
            components[0].width,
            components[0].height,
        )->Ok_0;
        match chroma::full_chroma(components[1], components[2], config, rule) {
            Err(error) => Err(map_reconstruction_error(error)),
            Ok((u, v)) => Ok(seq![components[0], u, v]),
        }
    }
}

/// Whether buffers are the same but for the output planes of the first components.
pub open spec fn planes_replaced(
    before: Seq<ComponentModel>,
    after: Seq<ComponentModel>,
    count: int,
) -> bool {
    &&& after.len() == before.len()
    &&& forall|index: int|
        0 <= index < count ==> #[trigger] after[index] == before[index].with_plane(
            after[index].pipeline.plane_room,
        ) && pipeline::room_known(
            before[index].pipeline.plane_room,
            after[index].pipeline.plane_room,
        )
    &&& forall|index: int|
        count <= index < before.len() ==> #[trigger] after[index] == before[index]
}

fn upsample_chroma<K: Fn(Kernel, [i32; 16]) -> Option<[i32; 16]>>(
    parsed: &ParsedCodestream,
    components: Vec<PlanarSamples>,
    scale: DecodeScale,
    workspaces: &mut Vec<ComponentWorkspace>,
    kernels: &K,
) -> (result: Result<Vec<PlanarSamples>, JxrError>)
    requires
        kernels::callable(*kernels),
        components@.len() <= old(workspaces)@.len(),
    ensures
        planes_replaced(
            models(old(workspaces)@),
            models(final(workspaces)@),
            components@.len() as int,
        ),
        result matches Ok(planes) ==> planes@.len() == components@.len(),
        forall|rule: spec_fn(Kernel, Seq<i32>) -> Option<Seq<i32>>| #[trigger]
            kernels::runs(*kernels, rule) ==> planes_agree(
                result,
                upsampled(parsed@, plane_samples(components@), scale, rule),
            ),
{
    let coded: u8 = parsed.headers.primary.internal_color_format;
    let output: u8 = parsed.headers.image.output_color_format;
    if coded != 1 && coded != 2 {
        return Ok(components);
    }
    if components.len() != 3 {
        return Err(
            JxrError::new(JxrErrorKind::InternalInvariant, "subsampled YUV component count"),
        );
    }
    if output == 1 || output == 2 || scale == DecodeScale::Sixteenth {
        return Ok(components);
    }
    let config: ChromaReconstructionConfig = match ChromaReconstructionConfig::from_header(
        &parsed.headers.primary,
        components[0].width,
        components[0].height,
    ) {
        Ok(config) => config,
        Err(error) => return Err(map_reconstruction_error(error)),
    };
    let mut planes: [PlanarSamples; 2] = match reconstruct_chroma_444(
        &components[1],
        &components[2],
        config,
        kernels,
    ) {
        Ok(planes) => planes,
        Err(error) => return Err(map_reconstruction_error(error)),
    };
    let ghost input = plane_samples(components@);
    let mut components: Vec<PlanarSamples> = components;
    let mut coded_u: Vec<i32> = Vec::new();
    let mut coded_v: Vec<i32> = Vec::new();
    std::mem::swap(&mut components[1], &mut planes[0]);
    std::mem::swap(&mut components[2], &mut planes[1]);
    std::mem::swap(&mut planes[0].samples, &mut coded_u);
    std::mem::swap(&mut planes[1].samples, &mut coded_v);
    workspaces[1].pipeline.recycle_samples(coded_u);
    workspaces[2].pipeline.recycle_samples(coded_v);
    assert(plane_samples(components@) =~= seq![
        input[0],
        components@[1]@,
        components@[2]@,
    ]);
    Ok(components)
}

/// The components of an image, and its alpha plane where that is integrated.
pub open spec fn arena_reconstructed(
    arena: ArenaModel,
    parsed: ParsedModel,
    plan: PlanModel,
    integrated_alpha: bool,
    rules: ReconstructionRules,
) -> Result<(Seq<PlaneSamples>, Option<PlaneSamples>), JxrError> {
    let checked = (rules.check)(arena);
    let expected = plan.info.primary.color_format.components();
    let count = expected->0 as nat;
    let window = window::window_of(arena, arena.planes[0], plan);
    let coded = components_of(arena, plan, window->Ok_0, count, rules);
    let components = upsampled(parsed, coded->Ok_0, plan.scale, rules.kernels);
    let alpha = component_of(
        arena,
        arena.planes[count as int],
        false,
        plan,
        window->Ok_0,
        rules,
    );
    if checked is Err {
        Err(checked->Err_0)
    } else if expected is None {
        Err(JxrError::new(JxrErrorKind::InvalidSyntax, "primary component count"))
    } else if arena.planes.len() != count + (if integrated_alpha {
        1int
    } else {
        0
    }) {
        Err(JxrError::new(JxrErrorKind::InternalInvariant, "coefficient plane count"))
    } else if window is Err {
        Err(window->Err_0)
    } else if coded is Err {
        Err(coded->Err_0)
    } else if components is Err {
        Err(components->Err_0)
    } else if !integrated_alpha {
        Ok((components->Ok_0, None))
    } else if alpha is Err {
        Err(alpha->Err_0)
    } else {
        Ok((components->Ok_0, Some(alpha->Ok_0)))
    }
}

/// A plane as a value of the model, if there is one.
pub open spec fn optional_plane(plane: Option<PlanarSamples>) -> Option<PlaneSamples> {
    match plane {
        Some(plane) => Some(plane@),
        None => None,
    }
}

/// Whether executable components and alpha are the ones that are expected.
pub open spec fn image_agrees(
    result: Result<(Vec<PlanarSamples>, Option<PlanarSamples>), JxrError>,
    expected: Result<(Seq<PlaneSamples>, Option<PlaneSamples>), JxrError>,
) -> bool {
    match (result, expected) {
        (Ok((components, alpha)), Ok(expected)) => (
            plane_samples(components@),
            optional_plane(alpha),
        ) == expected,
        (Err(error), Err(expected)) => error == expected,
        _ => false,
    }
}

/// Makes buffers for more components, where there are too few.
fn make_components(components: &mut Vec<ComponentWorkspace>, count: usize)
    ensures
        models(final(components)@) == enlarged(models(old(components)@), count as nat),
{
    let ghost before = models(components@);
    while components.len() < count
        invariant
            before == models(old(components)@),
            before.len() <= components@.len(),
            before.len() < components@.len() ==> components@.len() <= count,
            models(components@) == enlarged(before, components@.len()),
        decreases count - components@.len(),
    {
        let ghost earlier = components@;
        components.push(ComponentWorkspace::new());
        proof {
            assert(models(components@) =~= models(earlier).push(ComponentModel::empty()));
            assert(enlarged(before, components@.len()) =~= enlarged(before, earlier.len()).push(
                ComponentModel::empty(),
            ));
        }
    }
}

/// The components of a window of an image, and its alpha plane where that is integrated.
pub open spec fn window_reconstructed(
    arena: ArenaModel,
    parsed: ParsedModel,
    plan: PlanModel,
    window: WindowModel,
    count: nat,
    integrated_alpha: bool,
    rules: ReconstructionRules,
) -> Result<(Seq<PlaneSamples>, Option<PlaneSamples>), JxrError> {
    let coded = components_of(arena, plan, window, count, rules);
    let components = upsampled(parsed, coded->Ok_0, plan.scale, rules.kernels);
    let alpha = component_of(arena, arena.planes[count as int], false, plan, window, rules);
    if coded is Err {
        Err(coded->Err_0)
    } else if components is Err {
        Err(components->Err_0)
    } else if !integrated_alpha {
        Ok((components->Ok_0, None))
    } else if alpha is Err {
        Err(alpha->Err_0)
    } else {
        Ok((components->Ok_0, Some(alpha->Ok_0)))
    }
}

fn reconstruct_window<
    K: Fn(Kernel, [i32; 16]) -> Option<[i32; 16]>,
    P: Fn(HighPassKernel, [i32; 256]) -> Option<[i32; 256]>,
    V: Fn(&CoefficientArena) -> Result<(), JxrError>,
>(
    arena: &CoefficientArena,
    parsed: &ParsedCodestream,
    plan: &PreparedPlan,
    window: &ReconstructionWindow,
    count: usize,
    integrated_alpha: bool,
    cpu: CpuCapabilities,
    workspaces: &mut Vec<ComponentWorkspace>,
    operators: &ReconstructionOperators<K, P, V>,
) -> (result: Result<(Vec<PlanarSamples>, Option<PlanarSamples>), JxrError>)
    requires
        ready(*operators),
        arena@.wf(),
        arena@.planes.len() == count + (if integrated_alpha {
            1int
        } else {
            0
        }),
        arena@.planes.len() <= old(workspaces)@.len(),
    ensures
        models(final(workspaces)@).len() == models(old(workspaces)@).len(),
        all_advanced(models(old(workspaces)@), models(final(workspaces)@)),
        result is Ok ==> all_used(
            models(old(workspaces)@),
            models(final(workspaces)@),
            arena@.planes,
            plan@,
            window@,
            arena@.planes.len() as int,
        ),
        result matches Ok((components, alpha)) ==> components@.len() == count && alpha is Some
            == integrated_alpha,
        forall|rules: ReconstructionRules| #[trigger]
            follow(*operators, rules) ==> image_agrees(
                result,
                window_reconstructed(
                    arena@,
                    parsed@,
                    plan@,
                    window@,
                    count as nat,
                    integrated_alpha,
                    rules,
                ),
            ),
{
    let ghost before = models(workspaces@);
    let components: Vec<PlanarSamples> = reconstruct_planes(
        arena,
        plan,
        window,
        count,
        cpu,
        workspaces,
        operators,
    )?;
    let ghost coded = models(workspaces@);
    let upsampled: Result<Vec<PlanarSamples>, JxrError> = upsample_chroma(
        parsed,
        components,
        plan.scale,
        workspaces,
        &operators.kernels,
    );
    let ghost sampled = models(workspaces@);
    proof {
        lemma_other_planes(
            before,
            coded,
            sampled,
            arena@.planes,
            plan@,
            window@,
            count as int,
        );
        lemma_used_once(before, sampled, arena@.planes, plan@, window@, count as int);
    }
    let components: Vec<PlanarSamples> = upsampled?;
    if !integrated_alpha {
        return Ok((components, None));
    }
    assert(arena@.describes(arena@.planes[count as int]));
    let alpha_workspace: &mut ComponentWorkspace = &mut workspaces[count];
    let alpha: Result<PlanarSamples, JxrError> = reconstruct_component(
        arena,
        &arena.planes[count],
        false,
        plan,
        window,
        cpu,
        alpha_workspace,
        operators,
    );
    proof {
        lemma_one_more_used(
            before,
            sampled,
            models(workspaces@),
            arena@.planes,
            plan@,
            window@,
            count as int,
        );
    }
    Ok((components, Some(alpha?)))
}

/// Whether the buffers for the planes of an arena were used for their reconstruction. What the
/// output planes have room for is left open, as coded chroma planes may have been taken back.
pub open spec fn arena_used(
    before: Seq<ComponentModel>,
    after: Seq<ComponentModel>,
    arena: ArenaModel,
    plan: PlanModel,
) -> bool {
    all_used(
        enlarged(before, arena.planes.len()),
        after,
        arena.planes,
        plan,
        window::window_of(arena, arena.planes[0], plan)->Ok_0,
        arena.planes.len() as int,
    )
}

/// Other output planes change nothing in the use of the buffers.
pub(crate) proof fn lemma_planes_do_not_matter(
    before: Seq<ComponentModel>,
    middle: Seq<ComponentModel>,
    after: Seq<ComponentModel>,
    arena: ArenaModel,
    plan: PlanModel,
)
    requires
        arena_used(before, middle, arena, plan),
        planes_replaced(middle, after, arena.planes.len() as int),
    ensures
        arena_used(before, after, arena, plan),
{
    lemma_other_planes(
        enlarged(before, arena.planes.len()),
        middle,
        after,
        arena.planes,
        plan,
        window::window_of(arena, arena.planes[0], plan)->Ok_0,
        arena.planes.len() as int,
    );
}

/// Reconstructs the components of an image, and its alpha plane where that is integrated.
pub fn reconstruct_arena<
    K: Fn(Kernel, [i32; 16]) -> Option<[i32; 16]>,
    P: Fn(HighPassKernel, [i32; 256]) -> Option<[i32; 256]>,
    V: Fn(&CoefficientArena) -> Result<(), JxrError>,
>(
    arena: &CoefficientArena,
    parsed: &ParsedCodestream,
    plan: &PreparedPlan,
    integrated_alpha: bool,
    cpu: CpuCapabilities,
    workspace: &mut ReconstructionWorkspace,
    operators: &ReconstructionOperators<K, P, V>,
) -> (result: Result<(Vec<PlanarSamples>, Option<PlanarSamples>), JxrError>)
    requires
        ready(*operators),
    ensures
        old(workspace).reuse_total() <= final(workspace).reuse_total(),
        all_advanced(old(workspace)@, final(workspace)@),
        all_rooms_known(old(workspace)@, final(workspace)@),
        result is Ok ==> arena_used(old(workspace)@, final(workspace)@, arena@, plan@),
        result matches Ok((components, alpha)) ==> {
            &&& arena@.planes.len() <= final(workspace)@.len()
            &&& arena@.planes.len() == components@.len() + (if integrated_alpha {
                1int
            } else {
                0
            })
            &&& alpha is Some == integrated_alpha
        },
        forall|rules: ReconstructionRules| #[trigger]
            follow(*operators, rules) ==> image_agrees(
                result,
                arena_reconstructed(arena@, parsed@, plan@, integrated_alpha, rules),
            ),
{
    proof {
        lemma_counted_sum(workspace@, workspace@);
    }
    (operators.check)(arena)?;
    let expected_components: usize = match plan.info.primary.color_format.component_count() {
        Some(count) => count as usize,
        None => {
            return Err(JxrError::new(JxrErrorKind::InvalidSyntax, "primary component count"));
        },
    };
    let expected_planes: usize = if integrated_alpha {
        expected_components + 1
    } else {
        expected_components
    };
    if arena.planes.len() != expected_planes {
        return Err(JxrError::new(JxrErrorKind::InternalInvariant, "coefficient plane count"));
    }
    let ghost before = workspace@;
    make_components(&mut workspace.components, expected_planes);
    let ghost made = workspace@;
    proof {
        assert forall|index: int| 0 <= index < before.len() implies #[trigger] made[index]
            == before[index] by {}
        lemma_counted_sum(before, made);
        assert(made =~= enlarged(before, made.len()));
    }
    let window: ReconstructionWindow = reconstruction_window(arena, &arena.planes[0], plan)?;
    let result: Result<(Vec<PlanarSamples>, Option<PlanarSamples>), JxrError> = reconstruct_window(
        arena,
        parsed,
        plan,
        &window,
        expected_components,
        integrated_alpha,
        cpu,
        &mut workspace.components,
        operators,
    );
    proof {
        lemma_counted_sum(made, workspace@);
        assert forall|index: int| 0 <= index < before.len() implies advanced(
            #[trigger] before[index],
            workspace@[index],
        ) by {
            assert(advanced(made[index], workspace@[index]));
        }
        assert forall|index: int| 0 <= index < workspace@.len() implies rooms_known(
            enlarged(before, workspace@.len())[index],
            #[trigger] workspace@[index],
        ) by {
            assert(advanced(made[index], workspace@[index]));
        }
    }
    result
}

/// Returns the components of an image whose arena has no other planes.
pub fn reconstruct_components_from_arena<
    K: Fn(Kernel, [i32; 16]) -> Option<[i32; 16]>,
    P: Fn(HighPassKernel, [i32; 256]) -> Option<[i32; 256]>,
    V: Fn(&CoefficientArena) -> Result<(), JxrError>,
>(
    arena: &CoefficientArena,
    parsed: &ParsedCodestream,
    plan: &PreparedPlan,
    cpu: CpuCapabilities,
    workspace: &mut ReconstructionWorkspace,
    operators: &ReconstructionOperators<K, P, V>,
) -> (result: Result<Vec<PlanarSamples>, JxrError>)
    requires
        ready(*operators),
    ensures
        old(workspace).reuse_total() <= final(workspace).reuse_total(),
        all_advanced(old(workspace)@, final(workspace)@),
        all_rooms_known(old(workspace)@, final(workspace)@),
        result is Ok ==> arena_used(old(workspace)@, final(workspace)@, arena@, plan@),
        result matches Ok(components) ==> components@.len() <= final(workspace)@.len(),
        forall|rules: ReconstructionRules| #[trigger]
            follow(*operators, rules) ==> match (
                result,
                arena_reconstructed(arena@, parsed@, plan@, false, rules),
            ) {
                (Ok(components), Ok(expected)) => plane_samples(components@) == expected.0,
                (Err(error), Err(expected)) => error == expected,
                _ => false,
            },
{
    let (components, _) = reconstruct_arena(
        arena,
        parsed,
        plan,
        false,
        cpu,
        workspace,
        operators,
    )?;
    Ok(components)
}

/// Returns the components and the integrated alpha plane of an image.
pub fn reconstruct_components_and_integrated_alpha_from_arena<
    K: Fn(Kernel, [i32; 16]) -> Option<[i32; 16]>,
    P: Fn(HighPassKernel, [i32; 256]) -> Option<[i32; 256]>,
    V: Fn(&CoefficientArena) -> Result<(), JxrError>,
>(
    arena: &CoefficientArena,
    parsed: &ParsedCodestream,
    plan: &PreparedPlan,
    cpu: CpuCapabilities,
    workspace: &mut ReconstructionWorkspace,
    operators: &ReconstructionOperators<K, P, V>,
) -> (result: Result<(Vec<PlanarSamples>, PlanarSamples), JxrError>)
    requires
        ready(*operators),
    ensures
        old(workspace).reuse_total() <= final(workspace).reuse_total(),
        all_advanced(old(workspace)@, final(workspace)@),
        all_rooms_known(old(workspace)@, final(workspace)@),
        result is Ok ==> arena_used(old(workspace)@, final(workspace)@, arena@, plan@),
        result matches Ok((components, _)) ==> components@.len() <= final(workspace)@.len(),
        forall|rules: ReconstructionRules| #[trigger]
            follow(*operators, rules) ==> match (
                result,
                arena_reconstructed(arena@, parsed@, plan@, true, rules),
            ) {
                (Ok((components, alpha)), Ok(expected)) => (
                    plane_samples(components@),
                    Some(alpha@),
                ) == expected,
                (Err(error), Err(expected)) => error == expected,
                _ => false,
            },
{
    let (components, alpha) = reconstruct_arena(
        arena,
        parsed,
        plan,
        true,
        cpu,
        workspace,
        operators,
    )?;
    match alpha {
        Some(alpha) => Ok((components, alpha)),
        None => Err(
            JxrError::new(
                JxrErrorKind::InternalInvariant,
                "integrated alpha reconstruction plane",
            ),
        ),
    }
}

} // verus!
