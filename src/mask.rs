use vstd::prelude::*;
use crate::attributes::OwnerAttributes;
use crate::flood::FloodTextures;
use crate::seed::{lemma_pixel_coords, lemma_pixel_index_bounds, pixel_index, Grid, Seed, Texel};

verus! {

/// A rasterised fragment of an outlined object: the pixel it covers, its
/// depth (reversed-Z: greater is nearer) and the object's attributes.
#[derive(Clone, Copy, Debug, PartialEq, Eq, Structural)]
pub struct Fragment {
    pub x: u32,
    pub y: u32,
    pub depth: u32,
    pub owner: OwnerAttributes,
}

impl Fragment {
    /// The texel that this fragment writes: itself as the seed.
    pub open spec fn texel(self) -> Texel {
        Texel { seed: Some(Seed { x: self.x, y: self.y }), owner: self.owner, depth: self.depth }
    }
}

/// Whether fragment `f` lands inside `g` and passes the depth test there
/// (greater-or-equal passes).
pub open spec fn passes_depth_test(g: Grid, f: Fragment) -> bool {
    &&& f.x < g.width
    &&& f.y < g.height
    &&& f.depth >= g.at(f.x as int, f.y as int).depth
}

/// `g` after fragment `f` is drawn into it.
pub open spec fn draw_fragment(g: Grid, f: Fragment) -> Grid {
    if passes_depth_test(g, f) {
        Grid {
            texels: g.texels.update(pixel_index(g.width as int, f.x as int, f.y as int), f.texel()),
            ..g
        }
    } else {
        g
    }
}

/// The seed grid after the fragments are drawn, in order, into a cleared grid.
pub open spec fn mask_spec(width: u32, height: u32, frags: Seq<Fragment>) -> Grid
    decreases frags.len(),
{
    if frags.len() == 0 {
        Grid::cleared(width, height)
    } else {
        draw_fragment(mask_spec(width, height, frags.drop_last()), frags.last())
    }
}

/// After the mask pass every pixel is either cleared or holds the texel of a
/// fragment drawn at that very pixel: each seed is the position of a fragment
/// of the mask pass, with that fragment's attributes and depth.
pub proof fn lemma_mask_texels(width: u32, height: u32, frags: Seq<Fragment>)
    ensures
        mask_spec(width, height, frags).wf(),
        mask_spec(width, height, frags).width == width,
        mask_spec(width, height, frags).height == height,
        forall|i: int|
            0 <= i < mask_spec(width, height, frags).texels.len() ==> {
                let t = #[trigger] mask_spec(width, height, frags).texels[i];
                t == Texel::empty() || exists|k: int|
                    0 <= k < frags.len() && t == frags[k].texel() && pixel_index(
                        width as int,
                        frags[k].x as int,
                        frags[k].y as int,
                    ) == i
            },
    decreases frags.len(),
{
    if frags.len() > 0 {
        let rest = frags.drop_last();
        let f = frags.last();
        let prev = mask_spec(width, height, rest);
        lemma_mask_texels(width, height, rest);
        let m = mask_spec(width, height, frags);
        assert(m == draw_fragment(prev, f));
        if passes_depth_test(prev, f) {
            lemma_pixel_index_bounds(width as int, height as int, f.x as int, f.y as int);
        }
        assert forall|i: int| 0 <= i < m.texels.len() implies {
            let t = #[trigger] m.texels[i];
            t == Texel::empty() || exists|k: int|
                0 <= k < frags.len() && t == frags[k].texel() && pixel_index(
                    width as int,
                    frags[k].x as int,
                    frags[k].y as int,
                ) == i
        } by {
            let idx = pixel_index(width as int, f.x as int, f.y as int);
            if passes_depth_test(prev, f) && i == idx {
                assert(m.texels[i] == frags[frags.len() - 1].texel());
            } else {
                assert(m.texels[i] == prev.texels[i]);
                if prev.texels[i] != Texel::empty() {
                    let k = choose|k: int|
                        0 <= k < rest.len() && prev.texels[i] == rest[k].texel() && pixel_index(
                            width as int,
                            rest[k].x as int,
                            rest[k].y as int,
                        ) == i;
                    assert(rest[k] == frags[k]);
                }
            }
        }
    }
}

proof fn lemma_pixel_index_injective(w: int, h: int, a: int, b: int, c: int, d: int)
    requires
        0 <= a < w,
        0 <= b < h,
        0 <= c < w,
        0 <= d < h,
    ensures
        (pixel_index(w, a, b) == pixel_index(w, c, d)) == (a == c && b == d),
{
    lemma_pixel_coords(w, h, a, b);
    lemma_pixel_coords(w, h, c, d);
}

/// Where every fragment drawn at a pixel lies behind `bound`, the mask pass
/// leaves that pixel cleared or with a depth behind `bound`.
proof fn lemma_mask_depth_below(width: u32, height: u32, frags: Seq<Fragment>, px: int, py: int, bound: u32)
    requires
        0 <= px < width,
        0 <= py < height,
        forall|i: int|
            0 <= i < frags.len() && (#[trigger] frags[i]).x == px && frags[i].y == py
                ==> frags[i].depth < bound,
    ensures
        mask_spec(width, height, frags).at(px, py).depth < bound || mask_spec(
            width,
            height,
            frags,
        ).at(px, py) == Texel::empty(),
    decreases frags.len(),
{
    lemma_mask_texels(width, height, frags);
    lemma_pixel_index_bounds(width as int, height as int, px, py);
    if frags.len() > 0 {
        let rest = frags.drop_last();
        let f = frags.last();
        assert forall|i: int|
            0 <= i < rest.len() && (#[trigger] rest[i]).x == px && rest[i].y == py implies rest[i].depth
            < bound by {
            assert(rest[i] == frags[i]);
        }
        lemma_mask_depth_below(width, height, rest, px, py, bound);
        lemma_mask_texels(width, height, rest);
        let prev = mask_spec(width, height, rest);
        let m = mask_spec(width, height, frags);
        let idx = pixel_index(width as int, px, py);
        assert(m == draw_fragment(prev, f));
        if passes_depth_test(prev, f) {
            lemma_pixel_index_injective(width as int, height as int, px, py, f.x as int, f.y as int);
            assert(frags[frags.len() - 1] == f);
            let fi = pixel_index(width as int, f.x as int, f.y as int);
            if fi == idx {
                assert(m.texels[idx] == f.texel());
            } else {
                lemma_pixel_index_bounds(width as int, height as int, f.x as int, f.y as int);
                assert(m.texels == prev.texels.update(fi, f.texel()));
                assert(m.texels[idx] == prev.texels[idx]);
            }
        }
    } else {
        let idx = pixel_index(width as int, px, py);
        assert(mask_spec(width, height, frags).texels[idx] == Texel::empty());
    }
}

/// A fragment nearer than every other fragment drawn at its pixel survives
/// the mask pass there.
pub proof fn lemma_mask_keeps_nearest(width: u32, height: u32, frags: Seq<Fragment>, k: int)
    requires
        0 <= k < frags.len(),
        frags[k].x < width,
        frags[k].y < height,
        forall|i: int|
            0 <= i < frags.len() && i != k && (#[trigger] frags[i]).x == frags[k].x && frags[i].y
                == frags[k].y ==> frags[i].depth < frags[k].depth,
    ensures
        mask_spec(width, height, frags).at(frags[k].x as int, frags[k].y as int) == frags[k].texel(),
    decreases frags.len(),
{
    let f = frags[k];
    let rest = frags.drop_last();
    let last = frags.last();
    lemma_mask_texels(width, height, rest);
    lemma_pixel_index_bounds(width as int, height as int, f.x as int, f.y as int);
    if k == frags.len() - 1 {
        assert forall|i: int|
            0 <= i < rest.len() && (#[trigger] rest[i]).x == f.x && rest[i].y == f.y implies rest[i].depth
            < f.depth by {
            assert(rest[i] == frags[i]);
        }
        lemma_mask_depth_below(width, height, rest, f.x as int, f.y as int, f.depth);
        let prev = mask_spec(width, height, rest);
        assert(mask_spec(width, height, frags) == draw_fragment(prev, last));
        assert(last == f);
        assert(passes_depth_test(prev, f));
    } else {
        assert forall|i: int|
            0 <= i < rest.len() && i != k && (#[trigger] rest[i]).x == rest[k].x && rest[i].y
                == rest[k].y implies rest[i].depth < rest[k].depth by {
            assert(rest[i] == frags[i]);
        }
        lemma_mask_keeps_nearest(width, height, rest, k);
        assert(rest[k] == f);
        if passes_depth_test(mask_spec(width, height, rest), last) {
            lemma_pixel_index_injective(
                width as int,
                height as int,
                f.x as int,
                f.y as int,
                last.x as int,
                last.y as int,
            );
            assert(frags[frags.len() - 1] == last);
            assert(last.x != f.x || last.y != f.y || last.depth < f.depth);
        }
        let prev = mask_spec(width, height, rest);
        let m = mask_spec(width, height, frags);
        let idx = pixel_index(width as int, f.x as int, f.y as int);
        assert(m == draw_fragment(prev, last));
        assert(prev.texels[idx] == f.texel());
        if passes_depth_test(prev, last) {
            let li = pixel_index(width as int, last.x as int, last.y as int);
            assert(li != idx);
            lemma_pixel_index_bounds(width as int, height as int, last.x as int, last.y as int);
            assert(m.texels == prev.texels.update(li, last.texel()));
            assert(m.texels[idx] == prev.texels[idx]);
        }
    }
}

/// The mask pass: clears both buffers, then draws every fragment into
/// `output` as a seed at its own pixel, keeping at each pixel the nearest
/// fragment (the later of equally near ones). Fragments outside the buffers
/// are clipped.
pub fn mask_pass(textures: &mut FloodTextures, fragments: &Vec<Fragment>)
    requires
        old(textures).wf(),
    ensures
        final(textures).wf(),
        final(textures).width() == old(textures).width(),
        final(textures).height() == old(textures).height(),
        final(textures).input@ == Grid::cleared(old(textures).width(), old(textures).height()),
        final(textures).output@ == mask_spec(
            old(textures).width(),
            old(textures).height(),
            fragments@,
        ),
{
    let w = textures.output.width;
    let h = textures.output.height;
    textures.input.clear();
    textures.output.clear();
    let mut i: usize = 0;
    while i < fragments.len()
        invariant
            textures.wf(),
            textures.width() == w,
            textures.height() == h,
            textures.input@ == Grid::cleared(w, h),
            i <= fragments@.len(),
            textures.output@ == mask_spec(w, h, fragments@.subrange(0, i as int)),
        decreases fragments@.len() - i,
    {
        let f = fragments[i];
        proof {
            assert(fragments@.subrange(0, i + 1).drop_last() =~= fragments@.subrange(0, i as int));
        }
        if f.x < w && f.y < h {
            let k = textures.output.index(f.x, f.y);
            if f.depth >= textures.output.texels[k].depth {
                textures.output.texels.set(
                    k,
                    Texel { seed: Some(Seed { x: f.x, y: f.y }), owner: f.owner, depth: f.depth },
                );
            }
        }
        i += 1;
    }
    assert(fragments@.subrange(0, fragments@.len() as int) =~= fragments@);
}

} // verus!
