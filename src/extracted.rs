use vstd::prelude::*;
use std::collections::HashMap;
use crate::attributes::{ExtractedOutline, Rgb};

verus! {

broadcast use vstd::std_specs::hash::group_hash_axioms;

/// The map that a list of `(entity, outline)` pairs describes: each entity
/// maps to the last outline given for it.
pub open spec fn outline_map(items: Seq<(u64, ExtractedOutline)>) -> Map<u64, ExtractedOutline>
    decreases items.len(),
{
    if items.len() == 0 {
        Map::empty()
    } else {
        outline_map(items.drop_last()).insert(items.last().0, items.last().1)
    }
}

/// The outlines extracted for one frame, keyed by a frame-stable entity key.
#[derive(Debug)]
pub struct ExtractedOutlines {
    pub outlines: HashMap<u64, ExtractedOutline>,
}

impl View for ExtractedOutlines {
    type V = Map<u64, ExtractedOutline>;

    open spec fn view(&self) -> Map<u64, ExtractedOutline> {
        self.outlines@
    }
}

impl ExtractedOutlines {
    /// An empty set of outlines.
    pub fn new() -> (e: ExtractedOutlines)
        ensures
            e@ == Map::<u64, ExtractedOutline>::empty(),
    {
        ExtractedOutlines { outlines: HashMap::new() }
    }

    /// Replaces the contents with this frame's outlines: nothing of the
    /// previous frame is kept.
    pub fn rebuild(&mut self, items: &Vec<(u64, ExtractedOutline)>)
        ensures
            final(self)@ == outline_map(items@),
    {
        self.outlines.clear();
        let mut i: usize = 0;
        while i < items.len()
            invariant
                i <= items@.len(),
                self@ == outline_map(items@.subrange(0, i as int)),
            decreases items@.len() - i,
        {
            proof {
                assert(items@.subrange(0, i + 1).drop_last() =~= items@.subrange(0, i as int));
            }
            let (key, outline) = items[i];
            self.outlines.insert(key, outline);
            i += 1;
        }
        assert(items@.subrange(0, items@.len() as int) =~= items@);
    }

    /// The outline extracted for `entity`, if any.
    pub fn get(&self, entity: u64) -> (r: Option<ExtractedOutline>)
        ensures
            r == (if self@.contains_key(entity) {
                Some(self@[entity])
            } else {
                None
            }),
    {
        match self.outlines.get(&entity) {
            Some(o) => Some(*o),
            None => None,
        }
    }

    /// The number of outlined entities.
    pub fn len(&self) -> (n: usize)
        ensures
            n == self@.len(),
    {
        self.outlines.len()
    }
}

/// The per-instance record uploaded for the mask pass. The GPU layout is
/// `intensity, width, id, priority` as four scalars, the colour as a padded
/// three-vector with `instance_index` in its padding, then the three
/// transform rows.
#[derive(Clone, Copy, Debug)]
pub struct OutlineUniform {
    pub intensity: u16,
    pub width: u32,
    pub id: u32,
    pub priority: i32,
    pub outline_color: Rgb,
    pub instance_index: u32,
    pub world_from_local: [[u32; 4]; 3],
}

impl OutlineUniform {
    /// The record for one extracted outline.
    pub fn new(outline: &ExtractedOutline, instance_index: u32) -> (u: OutlineUniform)
        ensures
            u.intensity == outline.intensity,
            u.width == outline.width,
            u.id == outline.id,
            u.priority == outline.priority,
            u.outline_color == outline.color,
            u.instance_index == instance_index,
            u.world_from_local == outline.world_from_local,
    {
        OutlineUniform {
            intensity: outline.intensity,
            width: outline.width,
            id: outline.id,
            priority: outline.priority,
            outline_color: outline.color,
            instance_index,
            world_from_local: outline.world_from_local,
        }
    }
}

} // verus!
