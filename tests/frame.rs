use mesh_outline::attributes::{ExtractedOutline, MeshOutline, OwnerAttributes, Rgb, UNORM_MAX};
use mesh_outline::compose::{blend_exec, compose_pass, compose_pixel, Rgba};
use mesh_outline::extracted::{ExtractedOutlines, OutlineUniform};
use mesh_outline::mask::Fragment;
use mesh_outline::queue::{queue_check, queue_outline, QueueSkip, VisibleMesh};
use mesh_outline::pipeline::{
    live_views, plan_view_frame, CameraState, FloodSettings, FramePhase, FramePlan, MissingResource, OutlineView, ViewResources,
};
use mesh_outline::seed::{Seed, SeedBuffer, Texel};

const PLANE: Rgba = Rgba { r: 20000, g: 20000, b: 20000, a: 65535 };
const RED: Rgb = Rgb { r: 65535, g: 0, b: 0 };
const BLUE: Rgb = Rgb { r: 0, g: 0, b: 65535 };

fn outline(width_px: u32, color: Rgb, priority: i32) -> ExtractedOutline {
    MeshOutline::new(width_px * 256).with_color(color).with_priority(priority).extract_component([[0; 4]; 3])
}

/// The fragments of an axis-aligned square object.
fn square(x0: u32, y0: u32, size: u32, depth: u32, o: &ExtractedOutline) -> Vec<Fragment> {
    let mut v = Vec::new();
    for y in y0..y0 + size {
        for x in x0..x0 + size {
            v.push(Fragment { x, y, depth, owner: o.owner() });
        }
    }
    v
}

fn flat_scene(w: u32, h: u32) -> (Vec<Rgba>, Vec<u32>) {
    let n = (w * h) as usize;
    (vec![PLANE; n], vec![10; n])
}

fn render(w: u32, h: u32, frags: &Vec<Fragment>) -> Vec<Rgba> {
    let (scene, depth) = flat_scene(w, h);
    let mut view = OutlineView::new(w, h);
    view.render_frame(w, h, frags, &scene, &depth)
}

fn px(out: &Vec<Rgba>, w: u32, x: u32, y: u32) -> Rgba {
    out[(y * w + x) as usize]
}

fn red_pixel() -> Rgba {
    Rgba { r: 65535, g: 0, b: 0, a: 65535 }
}

fn texel(seed: Option<Seed>, width: u32, depth: u32, intensity: u16) -> Texel {
    Texel {
        seed,
        owner: OwnerAttributes { color: RED, intensity, width, priority: 0, id: 0 },
        depth,
    }
}

#[test]
fn compose_empty_texel_keeps_scene() {
    let t = texel(None, 2560, 50, UNORM_MAX);
    assert_eq!(compose_pixel(PLANE, 10, &t, 3, 3), PLANE);
}

#[test]
fn compose_beyond_width_keeps_scene() {
    // Distance 5 against a width of 4.5 px, then of exactly 5 px.
    let t = texel(Some(Seed { x: 0, y: 0 }), 4 * 256 + 128, 50, UNORM_MAX);
    assert_eq!(compose_pixel(PLANE, 10, &t, 3, 4), PLANE);
    let t = texel(Some(Seed { x: 0, y: 0 }), 5 * 256, 50, UNORM_MAX);
    assert_eq!(compose_pixel(PLANE, 10, &t, 3, 4), red_pixel());
}

#[test]
fn compose_occluded_keeps_scene() {
    let t = texel(Some(Seed { x: 0, y: 0 }), 2560, 50, UNORM_MAX);
    assert_eq!(compose_pixel(PLANE, 51, &t, 1, 0), PLANE);
    // Equal depth is not nearer.
    assert_eq!(compose_pixel(PLANE, 50, &t, 1, 0), red_pixel());
}

#[test]
fn compose_intensity_scales_opacity() {
    let t = texel(Some(Seed { x: 0, y: 0 }), 2560, 50, 0);
    assert_eq!(compose_pixel(PLANE, 10, &t, 1, 0), PLANE);
    let half = blend_exec(Rgba { r: 0, g: 1000, b: 65535, a: 7 }, Rgb { r: 65535, g: 0, b: 0 }, 32768);
    // (65535 * 32768 + 32767) / 65535 = 32768; (1000 * 32767 + 32767) / 65535 = 500
    assert_eq!(half, Rgba { r: 32768, g: 500, b: 32767, a: 7 });
}

#[test]
fn compose_pass_covers_every_pixel() {
    let mut b = SeedBuffer::cleared(2, 2);
    b.texels[3] = texel(Some(Seed { x: 1, y: 1 }), 256, 50, UNORM_MAX);
    let out = compose_pass(&vec![PLANE; 4], &vec![10; 4], &b);
    assert_eq!(out, vec![PLANE, PLANE, PLANE, red_pixel()]);
}

#[test]
fn zero_width_outline_leaves_uncovered_pixels() {
    let o = outline(0, RED, 1);
    let frags = square(10, 10, 4, 100, &o);
    let out = render(24, 24, &frags);
    for y in 0..24 {
        for x in 0..24 {
            let covered = (10..14).contains(&x) && (10..14).contains(&y);
            if !covered {
                assert_eq!(px(&out, 24, x, y), PLANE);
            }
        }
    }
}

#[test]
fn one_object_gets_a_red_band() {
    let (w, h) = (48u32, 48u32);
    let o = outline(10, RED, 1);
    let frags = square(19, 19, 10, 100, &o);
    let out = render(w, h, &frags);
    for y in 0..h {
        for x in 0..w {
            let dx = if x < 19 { 19 - x } else if x > 28 { x - 28 } else { 0 };
            let dy = if y < 19 { 19 - y } else if y > 28 { y - 28 } else { 0 };
            let d2 = dx * dx + dy * dy;
            if d2 <= 100 {
                assert_eq!(px(&out, w, x, y), red_pixel(), "pixel {} {}", x, y);
            } else {
                assert_eq!(px(&out, w, x, y), PLANE, "pixel {} {}", x, y);
            }
        }
    }
}

#[test]
fn far_pixels_keep_scene_colour() {
    let o = outline(3, RED, 1);
    let frags = square(2, 2, 2, 100, &o);
    let out = render(16, 16, &frags);
    assert_eq!(px(&out, 16, 12, 12), PLANE);
    assert_eq!(px(&out, 16, 6, 3), red_pixel());
    assert_eq!(px(&out, 16, 7, 3), PLANE);
}

#[test]
fn occluding_geometry_hides_outline() {
    let (w, h) = (16u32, 16u32);
    let o = outline(4, RED, 1);
    let frags = square(4, 4, 3, 100, &o);
    let (scene, mut depth) = flat_scene(w, h);
    // A wall nearer than the object covers column 9.
    for y in 0..h {
        depth[(y * w + 9) as usize] = 200;
    }
    let mut view = OutlineView::new(w, h);
    let out = view.render_frame(w, h, &frags, &scene, &depth);
    assert_eq!(px(&out, w, 9, 5), PLANE);
    assert_eq!(px(&out, w, 8, 5), red_pixel());
}

#[test]
fn overlapping_bands_show_higher_priority() {
    let (w, h) = (60u32, 20u32);
    let blue = Rgba { r: 0, g: 0, b: 65535, a: 65535 };
    let red = red_pixel();
    // The blue object overlaps the red one and lies in front of it.
    let low = outline(10, RED, 1);
    let high = outline(18, BLUE, 5);
    let mut frags = square(30, 5, 6, 100, &low);
    frags.extend(square(34, 5, 6, 150, &high));
    let out = render(w, h, &frags);
    // Red's silhouette is nearer at these pixels, but both bands reach them.
    assert_eq!(px(&out, w, 25, 7), blue);
    assert_eq!(px(&out, w, 20, 7), blue);
    // Only the blue band reaches here.
    assert_eq!(px(&out, w, 17, 7), blue);
    // Neither band reaches here.
    assert_eq!(px(&out, w, 15, 7), PLANE);
    // Swap the priorities: where both bands reach, red shows.
    let low = outline(10, RED, 5);
    let high = outline(18, BLUE, 1);
    let mut frags = square(30, 5, 6, 100, &low);
    frags.extend(square(34, 5, 6, 150, &high));
    let out = render(w, h, &frags);
    assert_eq!(px(&out, w, 25, 7), red);
    assert_eq!(px(&out, w, 22, 7), red);
    // Here only the blue band reaches, but red's silhouette is nearer and red
    // has the higher priority: the nearer seed wins, and its band ends short.
    assert_eq!(px(&out, w, 17, 7), PLANE);
    // Repeated runs agree exactly.
    assert_eq!(render(w, h, &frags), out);
}

#[test]
fn higher_priority_wins_over_nearer_silhouette() {
    let green = Rgb { r: 0, g: 65535, b: 0 };
    let a = outline(10, RED, 1);
    let b = outline(15, green, 5);
    let frag = |x: u32, depth: u32, o: &ExtractedOutline| Fragment { x, y: 0, depth, owner: o.owner() };
    let frags = vec![frag(1, 100, &a), frag(2, 100, &a), frag(2, 150, &b), frag(3, 150, &b)];
    let out = render(6, 1, &frags);
    // Pixel 0 is 1 px from a's silhouette and 2 px from b's.
    assert_eq!(out[0], Rgba { r: 0, g: 65535, b: 0, a: 65535 });
}

#[test]
fn overlap_resolved_by_depth_in_mask() {
    let (w, h) = (20u32, 10u32);
    let far = outline(2, RED, 9);
    let near = outline(2, BLUE, 1);
    let mut frags = square(5, 3, 4, 100, &far);
    frags.extend(square(7, 3, 4, 150, &near));
    let (scene, depth) = flat_scene(w, h);
    let mut view = OutlineView::new(w, h);
    let out = view.render_frame(w, h, &frags, &scene, &depth);
    // The nearer blue object owns the pixels it covers; at 9 the red band
    // (2 px from red's visible edge at 6) no longer reaches.
    assert_eq!(px(&out, w, 9, 4), Rgba { r: 0, g: 0, b: 65535, a: 65535 });
    // At 8 the red band still reaches, and red has the higher priority.
    assert_eq!(px(&out, w, 8, 4), red_pixel());
}

#[test]
fn resizing_between_frames_gives_fresh_output() {
    let o = outline(3, RED, 1);
    let mut view = OutlineView::new(8, 8);
    let (scene, depth) = flat_scene(8, 8);
    let first = view.render_frame(8, 8, &square(1, 1, 2, 100, &o), &scene, &depth);
    assert_eq!(first.len(), 64);
    let frags = square(10, 6, 2, 100, &o);
    let (scene, depth) = flat_scene(16, 12);
    let second = view.render_frame(16, 12, &frags, &scene, &depth);
    assert_eq!(second.len(), 192);
    assert_eq!(view.textures.size(), (16, 12));
    assert_eq!(view.textures.input.texels.len(), 192);
    assert_eq!(view.phase, FramePhase::Idle);
    let fresh = OutlineView::new(16, 12).render_frame(16, 12, &frags, &scene, &depth);
    assert_eq!(second, fresh);
    // Nothing of the first frame's object remains.
    assert_eq!(px(&second, 16, 1, 1), PLANE);
}

#[test]
fn settings_from_fragments_take_widest_owner() {
    let a = outline(3, RED, 0);
    let b = outline(12, RED, 0);
    let mut frags = square(0, 0, 2, 5, &a);
    frags.extend(square(4, 4, 1, 5, &b));
    assert_eq!(FloodSettings::from_fragments(&frags).width, 12 * 256);
    assert_eq!(FloodSettings::from_fragments(&vec![]).width, 0);
}

#[test]
fn settings_take_widest_outline() {
    assert_eq!(FloodSettings::from_outlines(&vec![]).width, 0);
    let s = FloodSettings::from_outlines(&vec![outline(3, RED, 0), outline(12, RED, 0), outline(5, RED, 0)]);
    assert_eq!(s.width, 12 * 256);
    assert_eq!(s.passes(), 5);
    assert_eq!(FloodSettings { width: 0 }.passes(), 0);
}

#[test]
fn frame_phases_cycle() {
    let mut p = FramePhase::Idle;
    let mut seen = vec![p];
    for _ in 0..6 {
        p = p.next(2);
        seen.push(p);
    }
    assert_eq!(
        seen,
        vec![
            FramePhase::Idle,
            FramePhase::MaskReady,
            FramePhase::Flooding(2),
            FramePhase::Flooding(1),
            FramePhase::Flooding(0),
            FramePhase::Composed,
            FramePhase::Idle,
        ]
    );
}

fn all_resources() -> ViewResources {
    ViewResources { outline_phases: true, flood_pipeline: true, scene_depth: true, compose_pipeline: true }
}

#[test]
fn plan_runs_with_all_resources() {
    let d = plan_view_frame(all_resources(), Some((8, 8)), (8, 8), FloodSettings { width: 2560 });
    assert!(!d.size_mismatch);
    assert_eq!(d.plan, FramePlan::Run(5));
}

#[test]
fn plan_skips_on_missing_resources() {
    let s = FloodSettings { width: 2560 };
    let r = ViewResources { outline_phases: false, ..all_resources() };
    assert_eq!(plan_view_frame(r, None, (8, 8), s).plan, FramePlan::Skip(MissingResource::OutlinePhases));
    let r = ViewResources { flood_pipeline: false, ..all_resources() };
    assert_eq!(plan_view_frame(r, None, (8, 8), s).plan, FramePlan::Skip(MissingResource::FloodPipeline));
    let r = ViewResources { scene_depth: false, ..all_resources() };
    assert_eq!(plan_view_frame(r, None, (8, 8), s).plan, FramePlan::Skip(MissingResource::SceneDepth));
    let r = ViewResources { compose_pipeline: false, ..all_resources() };
    assert_eq!(plan_view_frame(r, None, (8, 8), s).plan, FramePlan::MaskOnly);
}

#[test]
fn plan_reports_size_mismatch() {
    let s = FloodSettings { width: 0 };
    assert!(plan_view_frame(all_resources(), Some((9, 8)), (8, 8), s).size_mismatch);
    assert!(plan_view_frame(all_resources(), Some((8, 7)), (8, 8), s).size_mismatch);
    assert!(!plan_view_frame(all_resources(), None, (8, 8), s).size_mismatch);
    assert_eq!(plan_view_frame(all_resources(), None, (8, 8), s).plan, FramePlan::Run(0));
}

#[test]
fn mesh_outline_defaults_and_builders() {
    let o = MeshOutline::new(2560);
    assert_eq!(o.width, 2560);
    assert_eq!(o.intensity, UNORM_MAX);
    assert_eq!(o.priority, 0);
    assert_eq!(o.color, Rgb::new(0, 0, 0));
    let o2 = o.with_intensity(7).with_priority(-3).with_color(BLUE);
    assert_eq!(o2.intensity, 7);
    assert_eq!(o2.priority, -3);
    assert_eq!(o2.color, BLUE);
    assert_eq!(o2.id, o.id);
    assert_eq!(o2.width, 2560);
}

#[test]
fn extraction_copies_attributes() {
    let o = MeshOutline::new(300).with_color(RED).with_priority(4).with_intensity(9);
    let rows = [[1, 2, 3, 4], [5, 6, 7, 8], [9, 10, 11, 12]];
    let e = o.extract_component(rows);
    assert_eq!((e.width, e.color, e.priority, e.intensity, e.id), (300, RED, 4, 9, o.id));
    assert_eq!(e.world_from_local, rows);
    let a = e.owner();
    assert_eq!(a, OwnerAttributes { color: RED, intensity: 9, width: 300, priority: 4, id: o.id });
    let u = OutlineUniform::new(&e, 3);
    assert_eq!((u.width, u.outline_color, u.instance_index), (300, RED, 3));
    assert_eq!(u.world_from_local, rows);
}

#[test]
fn extracted_outlines_rebuilt_each_frame() {
    let mut m = ExtractedOutlines::new();
    assert_eq!(m.len(), 0);
    m.rebuild(&vec![(1, outline(1, RED, 0)), (2, outline(2, RED, 0)), (1, outline(3, RED, 0))]);
    assert_eq!(m.len(), 2);
    assert_eq!(m.get(1).unwrap().width, 3 * 256);
    assert_eq!(m.get(2).unwrap().width, 2 * 256);
    m.rebuild(&vec![(7, outline(4, RED, 0))]);
    assert_eq!(m.len(), 1);
    assert!(m.get(1).is_none());
    assert_eq!(m.get(7).unwrap().width, 4 * 256);
}

#[test]
fn queue_keeps_ready_outlined_meshes_in_order() {
    let mut m = ExtractedOutlines::new();
    m.rebuild(&vec![(1, outline(1, RED, 0)), (2, outline(1, RED, 0)), (3, outline(1, RED, 0)), (5, outline(1, RED, 0))]);
    let ready = |entity| VisibleMesh { entity, has_mesh_instance: true, has_mesh: true };
    let visible = vec![
        ready(5),
        ready(4),
        VisibleMesh { entity: 2, has_mesh_instance: false, has_mesh: true },
        VisibleMesh { entity: 3, has_mesh_instance: true, has_mesh: false },
        ready(1),
    ];
    assert_eq!(queue_outline(&visible, &m), vec![5, 1]);
    assert_eq!(queue_check(&visible[1], &m), Some(QueueSkip::NoOutline));
    assert_eq!(queue_check(&visible[2], &m), Some(QueueSkip::NoMeshInstance));
    assert_eq!(queue_check(&visible[3], &m), Some(QueueSkip::NoMesh));
    assert_eq!(queue_check(&visible[0], &m), None);
}

#[test]
fn live_views_are_active_cameras_with_viewport() {
    let cams = vec![
        CameraState { entity: 1, is_active: true, has_viewport: true },
        CameraState { entity: 2, is_active: false, has_viewport: true },
        CameraState { entity: 3, is_active: true, has_viewport: false },
        CameraState { entity: 4, is_active: true, has_viewport: true },
    ];
    assert_eq!(live_views(&cams), vec![1, 4]);
    assert_eq!(live_views(&vec![]), Vec::<u64>::new());
}
