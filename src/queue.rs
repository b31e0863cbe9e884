use vstd::prelude::*;
use crate::attributes::ExtractedOutline;
use crate::extracted::ExtractedOutlines;

verus! {

/// A mesh that a camera sees this frame, and whether the renderer has what
/// drawing it in the mask pass needs.
#[derive(Clone, Copy, Debug, PartialEq, Eq, Structural)]
pub struct VisibleMesh {
    pub entity: u64,
    pub has_mesh_instance: bool,
    pub has_mesh: bool,
}

/// Why a visible mesh is left out of the mask pass.
#[derive(Clone, Copy, Debug, PartialEq, Eq, Structural)]
pub enum QueueSkip {
    /// The mesh carries no outline: not drawn, and not worth a warning.
    NoOutline,
    /// No render instance was found for the mesh.
    NoMeshInstance,
    /// The mesh asset is not loaded.
    NoMesh,
}

/// What happens to one visible mesh: queued (`None`) or skipped.
pub open spec fn queue_verdict(m: VisibleMesh, outlines: Map<u64, ExtractedOutline>) -> Option<
    QueueSkip,
> {
    if !outlines.contains_key(m.entity) {
        Some(QueueSkip::NoOutline)
    } else if !m.has_mesh_instance {
        Some(QueueSkip::NoMeshInstance)
    } else if !m.has_mesh {
        Some(QueueSkip::NoMesh)
    } else {
        None
    }
}

/// The entities that are queued, in the order in which they are seen.
pub open spec fn queued_spec(visible: Seq<VisibleMesh>, outlines: Map<u64, ExtractedOutline>) -> Seq<
    u64,
>
    decreases visible.len(),
{
    if visible.len() == 0 {
        Seq::empty()
    } else {
        let rest = queued_spec(visible.drop_last(), outlines);
        if queue_verdict(visible.last(), outlines) is None {
            rest.push(visible.last().entity)
        } else {
            rest
        }
    }
}

/// The verdict on one visible mesh.
pub fn queue_check(m: &VisibleMesh, outlines: &ExtractedOutlines) -> (r: Option<QueueSkip>)
    ensures
        r == queue_verdict(*m, outlines@),
{
    if outlines.get(m.entity).is_none() {
        Some(QueueSkip::NoOutline)
    } else if !m.has_mesh_instance {
        Some(QueueSkip::NoMeshInstance)
    } else if !m.has_mesh {
        Some(QueueSkip::NoMesh)
    } else {
        None
    }
}

/// Selects, in order, the visible meshes that the mask pass draws: those
/// with an extracted outline, a render instance and a loaded mesh.
pub fn queue_outline(visible: &Vec<VisibleMesh>, outlines: &ExtractedOutlines) -> (queued: Vec<u64>)
    ensures
        queued@ == queued_spec(visible@, outlines@),
{
    let mut queued: Vec<u64> = Vec::new();
    let mut i: usize = 0;
    while i < visible.len()
        invariant
            i <= visible@.len(),
            queued@ == queued_spec(visible@.subrange(0, i as int), outlines@),
        decreases visible@.len() - i,
    {
        proof {
            assert(visible@.subrange(0, i + 1).drop_last() =~= visible@.subrange(0, i as int));
        }
        if queue_check(&visible[i], outlines).is_none() {
            queued.push(visible[i].entity);
        }
        i += 1;
    }
    assert(visible@.subrange(0, visible@.len() as int) =~= visible@);
    queued
}

} // verus!
