use vstd::prelude::*;
use crate::attributes::ExtractedOutline;
use crate::compose::{blend, compose_grid, compose_pass, compose_texel, Rgba};
use crate::flood::{
    dist2, flood_passes, flood_passes_spec, flood_spec, jump_flood, lemma_flood_texels_from_start,
    lemma_top_priority_seed_wins, within_width, FloodTextures,
};
use crate::mask::{lemma_mask_keeps_nearest, lemma_mask_texels, mask_pass, mask_spec, Fragment};
use crate::seed::{lemma_pixel_coords, pixel_index, Seed, Texel};

verus! {

/// The largest width among `outlines`, or 0 when there are none.
pub open spec fn max_width(outlines: Seq<ExtractedOutline>) -> u32
    decreases outlines.len(),
{
    if outlines.len() == 0 {
        0
    } else {
        let rest = max_width(outlines.drop_last());
        if outlines.last().width > rest {
            outlines.last().width
        } else {
            rest
        }
    }
}

/// The largest owner width among `frags`, or 0 when there are none.
pub open spec fn fragment_width(frags: Seq<Fragment>) -> u32
    decreases frags.len(),
{
    if frags.len() == 0 {
        0
    } else {
        let rest = fragment_width(frags.drop_last());
        if frags.last().owner.width > rest {
            frags.last().owner.width
        } else {
            rest
        }
    }
}

/// No fragment's owner is wider than `fragment_width`.
pub proof fn lemma_fragment_width_bounds(frags: Seq<Fragment>)
    ensures
        forall|k: int| 0 <= k < frags.len() ==> (#[trigger] frags[k]).owner.width <= fragment_width(frags),
    decreases frags.len(),
{
    if frags.len() > 0 {
        let rest = frags.drop_last();
        lemma_fragment_width_bounds(rest);
        assert forall|k: int| 0 <= k < frags.len() implies (#[trigger] frags[k]).owner.width
            <= fragment_width(frags) by {
            if k < frags.len() - 1 {
                assert(rest[k] == frags[k]);
            }
        }
    }
}

/// Per-view flood parameters for one frame.
#[derive(Clone, Copy, Debug, PartialEq, Eq, Structural)]
pub struct FloodSettings {
    /// The width of the widest outline in view, in width units.
    pub width: u32,
}

impl FloodSettings {
    /// The settings for a view that shows `outlines`.
    pub fn from_outlines(outlines: &Vec<ExtractedOutline>) -> (s: FloodSettings)
        ensures
            s.width == max_width(outlines@),
    {
        let mut width: u32 = 0;
        let mut i: usize = 0;
        while i < outlines.len()
            invariant
                i <= outlines@.len(),
                width == max_width(outlines@.subrange(0, i as int)),
            decreases outlines@.len() - i,
        {
            proof {
                assert(outlines@.subrange(0, i + 1).drop_last() =~= outlines@.subrange(0, i as int));
            }
            if outlines[i].width > width {
                width = outlines[i].width;
            }
            i += 1;
        }
        assert(outlines@.subrange(0, outlines@.len() as int) =~= outlines@);
        FloodSettings { width }
    }

    /// The settings for a frame drawn from `fragments`: the widest of their
    /// owners.
    pub fn from_fragments(fragments: &Vec<Fragment>) -> (s: FloodSettings)
        ensures
            s.width == fragment_width(fragments@),
    {
        let mut width: u32 = 0;
        let mut i: usize = 0;
        while i < fragments.len()
            invariant
                i <= fragments@.len(),
                width == fragment_width(fragments@.subrange(0, i as int)),
            decreases fragments@.len() - i,
        {
            proof {
                assert(fragments@.subrange(0, i + 1).drop_last() =~= fragments@.subrange(0, i as int));
            }
            if fragments[i].owner.width > width {
                width = fragments[i].owner.width;
            }
            i += 1;
        }
        assert(fragments@.subrange(0, fragments@.len() as int) =~= fragments@);
        FloodSettings { width }
    }

    /// The number of flood rounds for this frame.
    pub fn passes(&self) -> (p: u32)
        ensures
            p == flood_passes_spec(self.width),
            p <= 26,
    {
        flood_passes(self.width)
    }
}

/// Where a view stands within a frame. `Flooding(k)` has `k` rounds left.
#[derive(Clone, Copy, Debug, PartialEq, Eq, Structural)]
pub enum FramePhase {
    Idle,
    MaskReady,
    Flooding(u32),
    Composed,
}

impl FramePhase {
    pub open spec fn next_spec(self, passes: u32) -> FramePhase {
        match self {
            FramePhase::Idle => FramePhase::MaskReady,
            FramePhase::MaskReady => FramePhase::Flooding(passes),
            FramePhase::Flooding(k) => if k == 0 {
                FramePhase::Composed
            } else {
                FramePhase::Flooding((k - 1) as u32)
            },
            FramePhase::Composed => FramePhase::Idle,
        }
    }

    /// The phase after the current step of a frame with `passes` rounds.
    pub fn next(self, passes: u32) -> (p: FramePhase)
        ensures
            p == self.next_spec(passes),
    {
        match self {
            FramePhase::Idle => FramePhase::MaskReady,
            FramePhase::MaskReady => FramePhase::Flooding(passes),
            FramePhase::Flooding(k) => if k == 0 {
                FramePhase::Composed
            } else {
                FramePhase::Flooding(k - 1)
            },
            FramePhase::Composed => FramePhase::Idle,
        }
    }
}

/// The composed frame for a view of `width * height` pixels: the fragments
/// are drawn into cleared buffers, flooded for as many rounds as the widest
/// outline asks, and composed over the scene.
pub open spec fn frame_spec(
    width: u32,
    height: u32,
    fragments: Seq<Fragment>,
    settings: FloodSettings,
    scene: Seq<Rgba>,
    scene_depth: Seq<u32>,
) -> Seq<Rgba> {
    let passes = flood_passes_spec(settings.width);
    compose_grid(scene, scene_depth, flood_spec(mask_spec(width, height, fragments), passes, passes))
}

/// The flooded texel at any pixel of a frame is either cleared or the texel
/// of one of the frame's fragments.
proof fn lemma_frame_texel(
    width: u32,
    height: u32,
    fragments: Seq<Fragment>,
    settings: FloodSettings,
    i: int,
)
    requires
        0 <= i < width * height,
    ensures
        ({
            let passes = flood_passes_spec(settings.width);
            let t = flood_spec(mask_spec(width, height, fragments), passes, passes).texels[i];
            t == Texel::empty() || exists|k: int| 0 <= k < fragments.len() && t == fragments[k].texel()
        }),
        flood_spec(
            mask_spec(width, height, fragments),
            flood_passes_spec(settings.width),
            flood_passes_spec(settings.width),
        ).width == width,
        flood_spec(
            mask_spec(width, height, fragments),
            flood_passes_spec(settings.width),
            flood_passes_spec(settings.width),
        ).texels.len() == width * height,
{
    let passes = flood_passes_spec(settings.width);
    let m = mask_spec(width, height, fragments);
    lemma_mask_texels(width, height, fragments);
    lemma_flood_texels_from_start(m, passes, passes);
    let f = flood_spec(m, passes, passes);
    let j = choose|j: int| 0 <= j < m.texels.len() && m.texels[j] == f.texels[i];
    assert(m.texels[j] == f.texels[i]);
}

/// A pixel farther than its width from every fragment of every outlined
/// object keeps the scene colour.
pub proof fn lemma_far_pixels_keep_scene(
    width: u32,
    height: u32,
    fragments: Seq<Fragment>,
    settings: FloodSettings,
    scene: Seq<Rgba>,
    scene_depth: Seq<u32>,
    x: int,
    y: int,
)
    requires
        scene.len() == width * height,
        scene_depth.len() == width * height,
        0 <= x < width,
        0 <= y < height,
        forall|k: int|
            0 <= k < fragments.len() ==> !within_width(
                x,
                y,
                Seed { x: #[trigger] fragments[k].x, y: fragments[k].y },
                fragments[k].owner.width,
            ),
    ensures
        frame_spec(width, height, fragments, settings, scene, scene_depth)[pixel_index(
            width as int,
            x,
            y,
        )] == scene[pixel_index(width as int, x, y)],
{
    let i = pixel_index(width as int, x, y);
    lemma_pixel_coords(width as int, height as int, x, y);
    lemma_frame_texel(width, height, fragments, settings, i);
}

/// Where the scene surface is nearer to the camera than every fragment of
/// every outlined object, no outline shows through.
pub proof fn lemma_occluded_pixels_keep_scene(
    width: u32,
    height: u32,
    fragments: Seq<Fragment>,
    settings: FloodSettings,
    scene: Seq<Rgba>,
    scene_depth: Seq<u32>,
    x: int,
    y: int,
)
    requires
        scene.len() == width * height,
        scene_depth.len() == width * height,
        0 <= x < width,
        0 <= y < height,
        forall|k: int|
            0 <= k < fragments.len() ==> scene_depth[pixel_index(width as int, x, y)]
                > #[trigger] fragments[k].depth,
    ensures
        frame_spec(width, height, fragments, settings, scene, scene_depth)[pixel_index(
            width as int,
            x,
            y,
        )] == scene[pixel_index(width as int, x, y)],
{
    let i = pixel_index(width as int, x, y);
    lemma_pixel_coords(width as int, height as int, x, y);
    lemma_frame_texel(width, height, fragments, settings, i);
}

/// With every outline of width zero there are no flood rounds, and every
/// pixel that no fragment covers keeps the scene colour. A covered pixel is
/// still blended (its own seed lies at distance 0, within width 0) unless a
/// scene surface lies in front of it.
pub proof fn lemma_zero_width_keeps_scene(
    width: u32,
    height: u32,
    fragments: Seq<Fragment>,
    settings: FloodSettings,
    scene: Seq<Rgba>,
    scene_depth: Seq<u32>,
    x: int,
    y: int,
)
    requires
        scene.len() == width * height,
        scene_depth.len() == width * height,
        0 <= x < width,
        0 <= y < height,
        settings.width == 0,
        forall|k: int| 0 <= k < fragments.len() ==> #[trigger] fragments[k].owner.width == 0,
        forall|k: int|
            0 <= k < fragments.len() ==> !(#[trigger] fragments[k].x == x && fragments[k].y == y),
    ensures
        flood_passes_spec(settings.width) == 0,
        frame_spec(width, height, fragments, settings, scene, scene_depth)[pixel_index(
            width as int,
            x,
            y,
        )] == scene[pixel_index(width as int, x, y)],
{
    assert forall|k: int| 0 <= k < fragments.len() implies !within_width(
        x,
        y,
        Seed { x: #[trigger] fragments[k].x, y: fragments[k].y },
        fragments[k].owner.width,
    ) by {
        let s = Seed { x: fragments[k].x, y: fragments[k].y };
        let d = dist2(x, y, s);
        assert(d > 0) by (nonlinear_arith)
            requires
                x != s.x || y != s.y,
                d == (x - s.x) * (x - s.x) + (y - s.y) * (y - s.y),
        ;
        assert(d * (256 * 256) > 0) by (nonlinear_arith)
            requires
                d > 0,
        ;
        assert(fragments[k].owner.width == 0);
    }
    lemma_far_pixels_keep_scene(width, height, fragments, settings, scene, scene_depth, x, y);
}

/// Where one fragment has a higher priority than every other fragment and is
/// the nearest at its own pixel, every pixel within its owner's width that
/// no scene surface in front hides shows its owner's colour, however near the
/// silhouettes of lower-priority outlines are.
pub proof fn lemma_top_priority_outline_shows(
    width: u32,
    height: u32,
    fragments: Seq<Fragment>,
    settings: FloodSettings,
    scene: Seq<Rgba>,
    scene_depth: Seq<u32>,
    k: int,
    x: int,
    y: int,
)
    requires
        scene.len() == width * height,
        scene_depth.len() == width * height,
        0 <= k < fragments.len(),
        fragments[k].x < width,
        fragments[k].y < height,
        forall|i: int|
            0 <= i < fragments.len() && i != k ==> (#[trigger] fragments[i]).owner.priority
                < fragments[k].owner.priority,
        forall|i: int|
            0 <= i < fragments.len() && i != k && (#[trigger] fragments[i]).x == fragments[k].x
                && fragments[i].y == fragments[k].y ==> fragments[i].depth < fragments[k].depth,
        fragments[k].owner.width <= settings.width,
        0 <= x < width,
        0 <= y < height,
        within_width(x, y, Seed { x: fragments[k].x, y: fragments[k].y }, fragments[k].owner.width),
        scene_depth[pixel_index(width as int, x, y)] <= fragments[k].depth,
    ensures
        frame_spec(width, height, fragments, settings, scene, scene_depth)[pixel_index(
            width as int,
            x,
            y,
        )] == blend(
            scene[pixel_index(width as int, x, y)],
            fragments[k].owner.color,
            fragments[k].owner.intensity,
        ),
{
    let f = fragments[k];
    let t = f.texel();
    let m = mask_spec(width, height, fragments);
    let passes = flood_passes_spec(settings.width);
    lemma_mask_texels(width, height, fragments);
    lemma_mask_keeps_nearest(width, height, fragments, k);
    assert forall|i: int|
        0 <= i < m.texels.len() && (#[trigger] m.texels[i]).seed is Some && m.texels[i] != t
            implies m.texels[i].owner.priority < t.owner.priority by {
        let j = choose|j: int|
            0 <= j < fragments.len() && m.texels[i] == fragments[j].texel() && pixel_index(
                width as int,
                fragments[j].x as int,
                fragments[j].y as int,
            ) == i;
        assert(j != k);
    }
    assert(m.at(f.x as int, f.y as int).seed == Some(
        Seed { x: (f.x as int) as u32, y: (f.y as int) as u32 },
    ));
    lemma_top_priority_seed_wins(m, f.x as int, f.y as int, settings.width, x, y);
    lemma_flood_texels_from_start(m, passes, passes);
    lemma_pixel_coords(width as int, height as int, x, y);
}

/// The outline buffers of one view and where the view stands in its frame.
#[derive(Debug)]
pub struct OutlineView {
    pub textures: FloodTextures,
    pub phase: FramePhase,
}

impl OutlineView {
    pub open spec fn wf(&self) -> bool {
        self.textures.wf()
    }

    /// An idle view with cleared buffers of the given size.
    pub fn new(width: u32, height: u32) -> (v: OutlineView)
        requires
            width * height <= usize::MAX,
        ensures
            v.wf(),
            v.phase == FramePhase::Idle,
            v.textures.width() == width,
            v.textures.height() == height,
    {
        OutlineView { textures: FloodTextures::new(width, height), phase: FramePhase::Idle }
    }

    /// Renders one frame of a `width * height` view: resizes the buffers when
    /// the view's size changed, then runs the mask pass, as many flood rounds
    /// as the widest outline among the fragments asks, and the compose pass,
    /// and returns the composed colours. Nothing of an earlier frame reaches
    /// the result.
    pub fn render_frame(
        &mut self,
        width: u32,
        height: u32,
        fragments: &Vec<Fragment>,
        scene: &Vec<Rgba>,
        scene_depth: &Vec<u32>,
    ) -> (out: Vec<Rgba>)
        requires
            old(self).wf(),
            width * height <= usize::MAX,
            scene@.len() == width * height,
            scene_depth@.len() == width * height,
        ensures
            final(self).wf(),
            final(self).phase == FramePhase::Idle,
            final(self).textures.width() == width,
            final(self).textures.height() == height,
            out@ == frame_spec(
                width,
                height,
                fragments@,
                FloodSettings { width: fragment_width(fragments@) },
                scene@,
                scene_depth@,
            ),
    {
        let (w, h) = self.textures.size();
        if w != width || h != height {
            self.textures = FloodTextures::new(width, height);
        }
        let settings = FloodSettings::from_fragments(fragments);
        let passes = settings.passes();
        mask_pass(&mut self.textures, fragments);
        self.phase = FramePhase::Idle.next(passes);
        self.phase = self.phase.next(passes);
        // The flood runs the rounds of `Flooding(passes)` down to `Flooding(1)`.
        jump_flood(&mut self.textures, passes);
        self.phase = FramePhase::Flooding(0);
        let out = compose_pass(scene, scene_depth, &self.textures.output);
        self.phase = self.phase.next(passes);
        self.phase = self.phase.next(passes);
        out
    }
}

/// A camera as the extraction stage sees it.
#[derive(Clone, Copy, Debug, PartialEq, Eq, Structural)]
pub struct CameraState {
    pub entity: u64,
    pub is_active: bool,
    /// Whether the camera has a viewport size this frame.
    pub has_viewport: bool,
}

/// The cameras whose outline views live on this frame, in order: the active
/// ones with a viewport size.
pub open spec fn live_views_spec(cameras: Seq<CameraState>) -> Seq<u64>
    decreases cameras.len(),
{
    if cameras.len() == 0 {
        Seq::empty()
    } else {
        let rest = live_views_spec(cameras.drop_last());
        let c = cameras.last();
        if c.is_active && c.has_viewport {
            rest.push(c.entity)
        } else {
            rest
        }
    }
}

/// Selects the cameras that get an outline view this frame; the views of
/// all others are dropped.
pub fn live_views(cameras: &Vec<CameraState>) -> (live: Vec<u64>)
    ensures
        live@ == live_views_spec(cameras@),
{
    let mut live: Vec<u64> = Vec::new();
    let mut i: usize = 0;
    while i < cameras.len()
        invariant
            i <= cameras@.len(),
            live@ == live_views_spec(cameras@.subrange(0, i as int)),
        decreases cameras@.len() - i,
    {
        proof {
            assert(cameras@.subrange(0, i + 1).drop_last() =~= cameras@.subrange(0, i as int));
        }
        let c = cameras[i];
        if c.is_active && c.has_viewport {
            live.push(c.entity);
        }
        i += 1;
    }
    assert(cameras@.subrange(0, cameras@.len() as int) =~= cameras@);
    live
}

/// The resources that the outline node of a view needs in a frame.
#[derive(Clone, Copy, Debug, PartialEq, Eq, Structural)]
pub struct ViewResources {
    pub outline_phases: bool,
    pub flood_pipeline: bool,
    pub scene_depth: bool,
    pub compose_pipeline: bool,
}

/// The first resource found missing.
#[derive(Clone, Copy, Debug, PartialEq, Eq, Structural)]
pub enum MissingResource {
    OutlinePhases,
    FloodPipeline,
    SceneDepth,
}

/// What the outline node does for a view in a frame.
#[derive(Clone, Copy, Debug, PartialEq, Eq, Structural)]
pub enum FramePlan {
    /// Nothing is drawn: a resource that the mask pass needs is missing.
    Skip(MissingResource),
    /// The mask pass runs, but the compose pipeline is missing, so the scene
    /// is left as it is.
    MaskOnly,
    /// Every pass runs, with this many flood rounds.
    Run(u32),
}

/// The node's decision for a frame, and whether its buffers no longer match
/// the camera's target size (to be warned about and recreated).
#[derive(Clone, Copy, Debug, PartialEq, Eq, Structural)]
pub struct NodeDecision {
    pub size_mismatch: bool,
    pub plan: FramePlan,
}

pub open spec fn plan_spec(r: ViewResources, settings: FloodSettings) -> FramePlan {
    if !r.outline_phases {
        FramePlan::Skip(MissingResource::OutlinePhases)
    } else if !r.flood_pipeline {
        FramePlan::Skip(MissingResource::FloodPipeline)
    } else if !r.scene_depth {
        FramePlan::Skip(MissingResource::SceneDepth)
    } else if !r.compose_pipeline {
        FramePlan::MaskOnly
    } else {
        FramePlan::Run(flood_passes_spec(settings.width) as u32)
    }
}

/// Decides what the outline node does for a view: missing resources skip the
/// rest of the frame, never fail it.
pub fn plan_view_frame(
    resources: ViewResources,
    target_size: Option<(u32, u32)>,
    texture_size: (u32, u32),
    settings: FloodSettings,
) -> (d: NodeDecision)
    ensures
        d.size_mismatch == match target_size {
            Some(t) => t != texture_size,
            None => false,
        },
        d.plan == plan_spec(resources, settings),
{
    let size_mismatch = match target_size {
        Some(t) => t.0 != texture_size.0 || t.1 != texture_size.1,
        None => false,
    };
    let plan = if !resources.outline_phases {
        FramePlan::Skip(MissingResource::OutlinePhases)
    } else if !resources.flood_pipeline {
        FramePlan::Skip(MissingResource::FloodPipeline)
    } else if !resources.scene_depth {
        FramePlan::Skip(MissingResource::SceneDepth)
    } else if !resources.compose_pipeline {
        FramePlan::MaskOnly
    } else {
        FramePlan::Run(settings.passes())
    };
    NodeDecision { size_mismatch, plan }
}

} // verus!
