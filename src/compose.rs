use vstd::prelude::*;
use crate::attributes::{Rgb, UNORM_MAX};
use crate::flood::{seed_within_width, within_width};
use crate::seed::{Grid, SeedBuffer, Texel};

verus! {

/// A scene colour with 16-bit normalised channels.
#[derive(Clone, Copy, Debug, PartialEq, Eq, Structural)]
pub struct Rgba {
    pub r: u16,
    pub g: u16,
    pub b: u16,
    pub a: u16,
}

/// `s` moved towards `o` by `t / UNORM_MAX`, rounded to nearest.
pub open spec fn lerp_channel(s: u16, o: u16, t: u16) -> int {
    (s * (UNORM_MAX - t) + o * t + UNORM_MAX / 2) / (UNORM_MAX as int)
}

/// The scene colour with the outline colour laid over it at opacity
/// `intensity`; the scene's alpha is kept.
pub open spec fn blend(scene: Rgba, color: Rgb, intensity: u16) -> Rgba {
    Rgba {
        r: lerp_channel(scene.r, color.r, intensity) as u16,
        g: lerp_channel(scene.g, color.g, intensity) as u16,
        b: lerp_channel(scene.b, color.b, intensity) as u16,
        a: scene.a,
    }
}

/// The composed colour of pixel `(x, y)`, from its scene colour, its scene
/// depth and its flooded texel: the scene colour unless the pixel holds a seed
/// within its owner's width and no scene surface lies nearer than the owner;
/// there, the owner's colour blended over the scene. A pixel that an outlined
/// object covers holds its own seed at distance 0, so it is blended too, even
/// for an outline of width 0.
pub open spec fn compose_texel(scene: Rgba, scene_depth: u32, t: Texel, x: int, y: int) -> Rgba {
    match t.seed {
        None => scene,
        Some(s) => if !within_width(x, y, s, t.owner.width) || scene_depth > t.depth {
            scene
        } else {
            blend(scene, t.owner.color, t.owner.intensity)
        },
    }
}

/// The composed colours of a whole frame, row by row.
pub open spec fn compose_grid(scene: Seq<Rgba>, scene_depth: Seq<u32>, g: Grid) -> Seq<Rgba> {
    Seq::new(
        scene.len(),
        |i: int|
            compose_texel(
                scene[i],
                scene_depth[i],
                g.texels[i],
                i % (g.width as int),
                i / (g.width as int),
            ),
    )
}

fn lerp_channel_exec(s: u16, o: u16, t: u16) -> (r: u16)
    ensures
        r == lerp_channel(s, o, t),
{
    let m: u64 = 65535;
    let ss: u64 = s as u64;
    let oo: u64 = o as u64;
    let tt: u64 = t as u64;
    proof {
        assert(ss * (65535 - tt) <= 65535 * 65535) by (nonlinear_arith)
            requires
                ss <= 65535,
                tt <= 65535,
        ;
        assert(oo * tt <= 65535 * 65535) by (nonlinear_arith)
            requires
                oo <= 65535,
                tt <= 65535,
        ;
        assert(ss * (65535 - tt) + oo * tt <= 65535 * 65535) by (nonlinear_arith)
            requires
                ss <= 65535,
                oo <= 65535,
                tt <= 65535,
        ;
    }
    let a: u64 = ss * (m - tt);
    let b: u64 = oo * tt;
    let v: u64 = (a + b + m / 2) / m;
    v as u16
}

/// `blend(scene, color, intensity)`, computed.
pub fn blend_exec(scene: Rgba, color: Rgb, intensity: u16) -> (c: Rgba)
    ensures
        c == blend(scene, color, intensity),
{
    Rgba {
        r: lerp_channel_exec(scene.r, color.r, intensity),
        g: lerp_channel_exec(scene.g, color.g, intensity),
        b: lerp_channel_exec(scene.b, color.b, intensity),
        a: scene.a,
    }
}

/// The composed colour of one pixel.
pub fn compose_pixel(scene: Rgba, scene_depth: u32, t: &Texel, x: u32, y: u32) -> (c: Rgba)
    ensures
        c == compose_texel(scene, scene_depth, *t, x as int, y as int),
{
    match t.seed {
        None => scene,
        Some(s) => {
            if !seed_within_width(x, y, s, t.owner.width) || scene_depth > t.depth {
                scene
            } else {
                blend_exec(scene, t.owner.color, t.owner.intensity)
            }
        },
    }
}

/// The compose pass: the composed colour of every pixel, row by row, from the
/// scene colours, the scene depths and the flooded seed buffer.
pub fn compose_pass(scene: &Vec<Rgba>, scene_depth: &Vec<u32>, flooded: &SeedBuffer) -> (out: Vec<
    Rgba,
>)
    requires
        flooded.wf(),
        scene@.len() == flooded.texels@.len(),
        scene_depth@.len() == flooded.texels@.len(),
    ensures
        out@ == compose_grid(scene@, scene_depth@, flooded@),
{
    let n = scene.len();
    let w = flooded.width;
    let mut out: Vec<Rgba> = Vec::with_capacity(n);
    let mut i: usize = 0;
    while i < n
        invariant
            flooded.wf(),
            n == scene@.len(),
            n == scene_depth@.len(),
            n == flooded.texels@.len(),
            w == flooded.width,
            i <= n,
            out@ == Seq::new(
                i as nat,
                |k: int|
                    compose_texel(
                        scene@[k],
                        scene_depth@[k],
                        flooded.texels@[k],
                        k % (w as int),
                        k / (w as int),
                    ),
            ),
        decreases n - i,
    {
        proof {
            assert(w > 0) by (nonlinear_arith)
                requires
                    i < n,
                    n == w * flooded.height,
            ;
        }
        let xi: usize = i % (w as usize);
        let yi: usize = i / (w as usize);
        proof {
            assert(yi < flooded.height) by (nonlinear_arith)
                requires
                    i < n,
                    n == w * flooded.height,
                    yi == (i as int) / (w as int),
                    w > 0,
            ;
        }
        let c = compose_pixel(scene[i], scene_depth[i], &flooded.texels[i], xi as u32, yi as u32);
        out.push(c);
        i += 1;
    }
    assert(out@ =~= compose_grid(scene@, scene_depth@, flooded@));
    out
}

} // verus!
