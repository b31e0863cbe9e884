use vstd::prelude::*;
use crate::attributes::OwnerAttributes;

verus! {

/// The screen position of a mask-pass fragment, carried by the flood.
#[derive(Clone, Copy, Debug, PartialEq, Eq, Structural)]
pub struct Seed {
    pub x: u32,
    pub y: u32,
}

/// One pixel of the seed buffers: the nearest seed found so far (or none),
/// the attributes of its owner and the owner's depth. Depths follow the
/// reversed-Z convention: a greater value is nearer to the camera, and 0 is
/// the far plane.
#[derive(Clone, Copy, Debug, PartialEq, Eq, Structural)]
pub struct Texel {
    pub seed: Option<Seed>,
    pub owner: OwnerAttributes,
    pub depth: u32,
}

impl Texel {
    /// The sentinel that every pixel holds after clearing.
    pub open spec fn empty() -> Texel {
        Texel { seed: None, owner: OwnerAttributes::cleared(), depth: 0 }
    }

    pub fn cleared() -> (t: Texel)
        ensures
            t == Texel::empty(),
    {
        Texel {
            seed: None,
            owner: OwnerAttributes {
                color: crate::attributes::Rgb { r: 0, g: 0, b: 0 },
                intensity: 0,
                width: 0,
                priority: 0,
                id: 0,
            },
            depth: 0,
        }
    }
}

/// Row-major position of pixel `(x, y)` in a buffer `w` pixels wide.
pub open spec fn pixel_index(w: int, x: int, y: int) -> int {
    y * w + x
}

pub proof fn lemma_pixel_index_bounds(w: int, h: int, x: int, y: int)
    requires
        0 <= x < w,
        0 <= y < h,
    ensures
        0 <= pixel_index(w, x, y) < w * h,
{
    assert(0 <= y * w + x < w * h) by (nonlinear_arith)
        requires
            0 <= x < w,
            0 <= y < h,
    ;
}

/// A pixel's index gives back its coordinates.
pub proof fn lemma_pixel_coords(w: int, h: int, x: int, y: int)
    requires
        0 <= x < w,
        0 <= y < h,
    ensures
        pixel_index(w, x, y) % w == x,
        pixel_index(w, x, y) / w == y,
        0 <= pixel_index(w, x, y) < w * h,
{
    lemma_pixel_index_bounds(w, h, x, y);
    vstd::arithmetic::div_mod::lemma_fundamental_div_mod_converse(pixel_index(w, x, y), w, y, x);
}

/// The mathematical content of a seed buffer.
pub ghost struct Grid {
    pub width: u32,
    pub height: u32,
    pub texels: Seq<Texel>,
}

impl Grid {
    pub open spec fn wf(self) -> bool {
        self.texels.len() == self.width * self.height
    }

    /// The texel at pixel `(x, y)`.
    pub open spec fn at(self, x: int, y: int) -> Texel {
        self.texels[pixel_index(self.width as int, x, y)]
    }

    /// A grid of the given size with every pixel cleared.
    pub open spec fn cleared(width: u32, height: u32) -> Grid {
        Grid { width, height, texels: Seq::new((width * height) as nat, |i: int| Texel::empty()) }
    }
}

/// A buffer of `width * height` texels, stored row by row.
#[derive(Debug)]
pub struct SeedBuffer {
    pub width: u32,
    pub height: u32,
    pub texels: Vec<Texel>,
}

impl View for SeedBuffer {
    type V = Grid;

    open spec fn view(&self) -> Grid {
        Grid { width: self.width, height: self.height, texels: self.texels@ }
    }
}

impl SeedBuffer {
    pub open spec fn wf(&self) -> bool {
        self@.wf()
    }

    /// A buffer of the given size with every pixel cleared.
    pub fn cleared(width: u32, height: u32) -> (b: SeedBuffer)
        requires
            width * height <= usize::MAX,
        ensures
            b.wf(),
            b@ == Grid::cleared(width, height),
    {
        let n: usize = (width as usize) * (height as usize);
        let mut texels: Vec<Texel> = Vec::with_capacity(n);
        let mut i: usize = 0;
        while i < n
            invariant
                i <= n,
                n == width * height,
                texels@ == Seq::new(i as nat, |j: int| Texel::empty()),
            decreases n - i,
        {
            texels.push(Texel::cleared());
            i += 1;
        }
        SeedBuffer { width, height, texels }
    }

    /// Clears every pixel.
    pub fn clear(&mut self)
        requires
            old(self).wf(),
        ensures
            final(self)@ == Grid::cleared(old(self).width, old(self).height),
    {
        let n = self.texels.len();
        let mut i: usize = 0;
        while i < n
            invariant
                i <= n,
                n == self.texels@.len(),
                self.wf(),
                self.width == old(self).width,
                self.height == old(self).height,
                forall|k: int| 0 <= k < i ==> #[trigger] self.texels@[k] == Texel::empty(),
            decreases n - i,
        {
            self.texels.set(i, Texel::cleared());
            i += 1;
        }
        assert(self@.texels =~= Grid::cleared(self.width, self.height).texels);
    }

    /// Position of pixel `(x, y)` in `texels`.
    pub fn index(&self, x: u32, y: u32) -> (i: usize)
        requires
            self.wf(),
            x < self.width,
            y < self.height,
        ensures
            i == pixel_index(self.width as int, x as int, y as int),
            i < self.texels@.len(),
    {
        let n = self.texels.len();
        proof {
            lemma_pixel_index_bounds(self.width as int, self.height as int, x as int, y as int);
            assert((y as int) * (self.width as int) <= pixel_index(self.width as int, x as int, y as int));
        }
        (y as usize) * (self.width as usize) + (x as usize)
    }

    /// The texel at pixel `(x, y)`.
    pub fn texel(&self, x: u32, y: u32) -> (t: Texel)
        requires
            self.wf(),
            x < self.width,
            y < self.height,
        ensures
            t == self@.at(x as int, y as int),
    {
        let i = self.index(x, y);
        self.texels[i]
    }
}

} // verus!
