use vstd::prelude::*;

verus! {

/// Number of width units in one pixel: outline widths are fixed-point values.
pub const WIDTH_UNITS_PER_PIXEL: u32 = 256;

/// The largest channel or intensity value, standing for 1.0.
pub const UNORM_MAX: u16 = 65535;

/// A linear RGB colour with 16-bit normalised channels.
#[derive(Clone, Copy, Debug, PartialEq, Eq, Structural)]
pub struct Rgb {
    pub r: u16,
    pub g: u16,
    pub b: u16,
}

impl Rgb {
    pub open spec fn black() -> Rgb {
        Rgb { r: 0, g: 0, b: 0 }
    }

    pub fn new(r: u16, g: u16, b: u16) -> (c: Rgb)
        ensures
            c == (Rgb { r, g, b }),
    {
        Rgb { r, g, b }
    }
}

/// Relies on rand::random: a value drawn from the thread-local generator.
/// Nothing is promised of the value.
#[verifier::external_body]
fn random_id() -> (r: u32) {
    rand::random::<u32>()
}

/// The outline attributes that the host attaches to an object.
#[derive(Clone, Copy, Debug, PartialEq, Eq, Structural)]
pub struct MeshOutline {
    /// Opacity multiplier; `UNORM_MAX` fully replaces the scene colour.
    pub intensity: u16,
    /// Outline width in `WIDTH_UNITS_PER_PIXEL` units.
    pub width: u32,
    /// Identity of this outline instance.
    pub id: u32,
    /// Higher priority wins where two outlines are equally near.
    pub priority: i32,
    pub color: Rgb,
}

impl MeshOutline {
    /// A black outline of the given width, at full intensity and priority zero,
    /// with a freshly drawn identity.
    pub fn new(width: u32) -> (o: MeshOutline)
        ensures
            o.width == width,
            o.intensity == UNORM_MAX,
            o.priority == 0,
            o.color == Rgb::black(),
    {
        let id = random_id();
        MeshOutline { intensity: UNORM_MAX, width, id, priority: 0, color: Rgb { r: 0, g: 0, b: 0 } }
    }

    pub fn with_intensity(self, intensity: u16) -> (o: MeshOutline)
        ensures
            o == (MeshOutline { intensity, ..self }),
    {
        MeshOutline { intensity, ..self }
    }

    pub fn with_priority(self, priority: i32) -> (o: MeshOutline)
        ensures
            o == (MeshOutline { priority, ..self }),
    {
        MeshOutline { priority, ..self }
    }

    pub fn with_color(self, color: Rgb) -> (o: MeshOutline)
        ensures
            o == (MeshOutline { color, ..self }),
    {
        MeshOutline { color, ..self }
    }
}

/// What a seed pixel carries about the object that owns it.
#[derive(Clone, Copy, Debug, PartialEq, Eq, Structural)]
pub struct OwnerAttributes {
    pub color: Rgb,
    pub intensity: u16,
    pub width: u32,
    pub priority: i32,
    pub id: u32,
}

impl OwnerAttributes {
    /// The attributes held by a cleared pixel.
    pub open spec fn cleared() -> OwnerAttributes {
        OwnerAttributes { color: Rgb::black(), intensity: 0, width: 0, priority: 0, id: 0 }
    }
}

/// A per-frame snapshot of one outlined instance: its attributes and the
/// upper three rows of its world transform (the bit patterns of the `f32`
/// entries, carried unchanged to the GPU).
#[derive(Clone, Copy, Debug)]
pub struct ExtractedOutline {
    pub intensity: u16,
    pub width: u32,
    pub id: u32,
    pub priority: i32,
    pub color: Rgb,
    pub world_from_local: [[u32; 4]; 3],
}

impl MeshOutline {
    /// Snapshot of this outline for an instance with the given transform rows.
    pub fn extract_component(&self, world_from_local: [[u32; 4]; 3]) -> (e: ExtractedOutline)
        ensures
            e == (ExtractedOutline {
                intensity: self.intensity,
                width: self.width,
                id: self.id,
                priority: self.priority,
                color: self.color,
                world_from_local,
            }),
    {
        ExtractedOutline {
            intensity: self.intensity,
            width: self.width,
            id: self.id,
            priority: self.priority,
            color: self.color,
            world_from_local,
        }
    }
}

impl ExtractedOutline {
    pub open spec fn owner_spec(&self) -> OwnerAttributes {
        OwnerAttributes {
            color: self.color,
            intensity: self.intensity,
            width: self.width,
            priority: self.priority,
            id: self.id,
        }
    }

    /// The attributes that the mask pass writes for this instance.
    pub fn owner(&self) -> (a: OwnerAttributes)
        ensures
            a == self.owner_spec(),
    {
        OwnerAttributes {
            color: self.color,
            intensity: self.intensity,
            width: self.width,
            priority: self.priority,
            id: self.id,
        }
    }
}

} // verus!
