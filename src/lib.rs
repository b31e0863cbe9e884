//! Per-object screen-space mesh outlines, computed with a jump-flood distance
//! transform: a mask pass seeds every covered pixel, a number of flood rounds
//! propagate the nearest seed (where outline bands overlap, the one of higher
//! priority), and a compose pass blends the outline colour over the scene
//! where that seed lies within its owner's width.
//!
//! Colours, intensities, depths and widths are fixed-point integers so that
//! every pass is exact and its contract can be stated over plain values.

pub mod attributes;
pub mod seed;
pub mod flood;
pub mod mask;
pub mod compose;
pub mod pipeline;
pub mod extracted;
pub mod queue;
