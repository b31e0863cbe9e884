use mesh_outline::attributes::{OwnerAttributes, Rgb};
use mesh_outline::flood::{flood_passes, flood_round, jump_flood, nearest_seed, seed_dist2, FloodTextures};
use mesh_outline::mask::{mask_pass, Fragment};
use mesh_outline::seed::{Seed, SeedBuffer, Texel};

fn owner(priority: i32, width_px: u32) -> OwnerAttributes {
    OwnerAttributes {
        color: Rgb { r: 65535, g: 0, b: 0 },
        intensity: 65535,
        width: width_px * 256,
        priority,
        id: priority as u32,
    }
}

fn frag(x: u32, y: u32, depth: u32, o: OwnerAttributes) -> Fragment {
    Fragment { x, y, depth, owner: o }
}

fn seeded(w: u32, h: u32, frags: &Vec<Fragment>) -> FloodTextures {
    let mut t = FloodTextures::new(w, h);
    mask_pass(&mut t, frags);
    t
}

#[test]
fn passes_for_zero_width_is_zero() {
    assert_eq!(flood_passes(0), 0);
}

#[test]
fn passes_for_whole_and_fractional_widths() {
    // 10 px: 20 / 2 + 1 = 11, rounded up to 16 = 2^4, plus one.
    assert_eq!(flood_passes(10 * 256), 5);
    assert_eq!(flood_passes(15 * 256), 5);
    assert_eq!(flood_passes(16 * 256), 6);
    assert_eq!(flood_passes(256), 2);
    // Half a pixel: twice the width rounds up to 1.
    assert_eq!(flood_passes(128), 1);
    assert_eq!(flood_passes(1), 1);
    assert_eq!(flood_passes(u32::MAX), 26);
}

#[test]
fn first_step_covers_half_the_width() {
    for px in 1..200u32 {
        let p = flood_passes(px * 256);
        assert!(2 * (1u64 << (p - 1)) > px as u64);
    }
}

#[test]
fn cleared_buffer_is_empty() {
    let b = SeedBuffer::cleared(3, 2);
    assert_eq!(b.texels.len(), 6);
    for t in b.texels.iter() {
        assert!(t.seed.is_none());
        assert_eq!(t.depth, 0);
    }
}

#[test]
fn mask_writes_own_position_as_seed() {
    let t = seeded(4, 4, &vec![frag(1, 2, 10, owner(1, 1))]);
    let texel = t.output.texel(1, 2);
    assert_eq!(texel.seed, Some(Seed { x: 1, y: 2 }));
    assert_eq!(texel.depth, 10);
    assert_eq!(texel.owner, owner(1, 1));
    assert!(t.output.texel(0, 0).seed.is_none());
    assert!(t.input.texels.iter().all(|x| x.seed.is_none()));
}

#[test]
fn mask_keeps_nearest_fragment() {
    let t = seeded(4, 4, &vec![frag(1, 1, 10, owner(1, 1)), frag(1, 1, 5, owner(2, 1))]);
    assert_eq!(t.output.texel(1, 1).owner.priority, 1);
    let t = seeded(4, 4, &vec![frag(1, 1, 5, owner(1, 1)), frag(1, 1, 10, owner(2, 1))]);
    assert_eq!(t.output.texel(1, 1).owner.priority, 2);
}

#[test]
fn mask_equal_depth_later_fragment_wins() {
    let t = seeded(4, 4, &vec![frag(2, 3, 7, owner(1, 1)), frag(2, 3, 7, owner(2, 1))]);
    assert_eq!(t.output.texel(2, 3).owner.priority, 2);
}

#[test]
fn mask_clips_fragments_outside() {
    let t = seeded(4, 4, &vec![frag(4, 0, 7, owner(1, 1)), frag(0, 9, 7, owner(2, 1))]);
    assert!(t.output.texels.iter().all(|x| x.seed.is_none()));
}

#[test]
fn mask_clears_previous_contents() {
    let mut t = seeded(4, 4, &vec![frag(0, 0, 7, owner(1, 1))]);
    mask_pass(&mut t, &vec![frag(3, 3, 7, owner(2, 1))]);
    assert!(t.output.texel(0, 0).seed.is_none());
    assert_eq!(t.output.texel(3, 3).seed, Some(Seed { x: 3, y: 3 }));
}

#[test]
fn zero_passes_leave_mask_output() {
    let mut t = seeded(5, 5, &vec![frag(2, 2, 7, owner(1, 1))]);
    jump_flood(&mut t, 0);
    let seeds = t.output.texels.iter().filter(|x| x.seed.is_some()).count();
    assert_eq!(seeds, 1);
    assert_eq!(t.output.texel(2, 2).seed, Some(Seed { x: 2, y: 2 }));
}

#[test]
fn single_seed_reaches_every_pixel_within_radius() {
    let (w, h) = (32u32, 32u32);
    let seed = Seed { x: 9, y: 20 };
    let radius: u32 = 12;
    // ceil_log2(12) + 1
    let passes = 5;
    let mut t = seeded(w, h, &vec![frag(seed.x, seed.y, 3, owner(1, radius))]);
    jump_flood(&mut t, passes);
    for y in 0..h {
        for x in 0..w {
            if seed_dist2(x, y, seed) <= (radius * radius) as u128 {
                let texel = t.output.texel(x, y);
                assert_eq!(texel.seed, Some(seed), "pixel {} {}", x, y);
                assert_eq!(texel.owner, owner(1, radius));
                assert_eq!(texel.depth, 3);
            }
        }
    }
}

fn isqrt_ceil(v: u128) -> u128 {
    let mut r = 0u128;
    while r * r < v {
        r += 1;
    }
    r
}

#[test]
fn several_seeds_within_one_pixel_of_nearest() {
    let (w, h) = (24u32, 24u32);
    let seeds = vec![(3u32, 4u32), (17, 6), (11, 19), (20, 21), (6, 14)];
    let frags: Vec<Fragment> = seeds.iter().map(|&(x, y)| frag(x, y, 5, owner(1, 30))).collect();
    let mut t = seeded(w, h, &frags);
    jump_flood(&mut t, flood_passes(30 * 256));
    for y in 0..h {
        for x in 0..w {
            let best = seeds.iter().map(|&(sx, sy)| seed_dist2(x, y, Seed { x: sx, y: sy })).min().unwrap();
            let got = seed_dist2(x, y, t.output.texel(x, y).seed.unwrap());
            // Compare Euclidean distances: sqrt(got) <= sqrt(best) + 1.
            let bound = isqrt_ceil(best) + 1;
            assert!(got <= bound * bound, "pixel {} {}", x, y);
        }
    }
}

#[test]
fn round_prefers_nearer_seed() {
    let t = seeded(9, 1, &vec![frag(0, 0, 5, owner(1, 9)), frag(8, 0, 5, owner(1, 9))]);
    let near_left = nearest_seed(&t.output, 2, 0, 2);
    assert_eq!(near_left.seed, Some(Seed { x: 0, y: 0 }));
    let near_right = nearest_seed(&t.output, 6, 0, 2);
    assert_eq!(near_right.seed, Some(Seed { x: 8, y: 0 }));
}

#[test]
fn equal_distance_tie_goes_to_higher_priority() {
    // Pixel 4 is 4 pixels from both seeds.
    for (left, right) in [(1, 5), (5, 1)] {
        let t = seeded(9, 1, &vec![frag(0, 0, 5, owner(left, 9)), frag(8, 0, 5, owner(right, 9))]);
        let r = nearest_seed(&t.output, 4, 0, 4);
        assert_eq!(r.owner.priority, 5);
        // Repeated runs agree.
        let again = nearest_seed(&t.output, 4, 0, 4);
        assert_eq!(r, again);
    }
}

#[test]
fn equal_priority_nearer_seed_wins_outside_its_band() {
    // Seed 0 has a 10 px outline, seed 4 none; pixel 3 takes the nearer seed.
    let frags = vec![frag(0, 0, 5, owner(1, 10)), frag(4, 0, 5, owner(1, 0))];
    let mut t = seeded(5, 1, &frags);
    jump_flood(&mut t, 2);
    assert_eq!(t.output.texel(3, 0).seed, Some(Seed { x: 4, y: 0 }));
    assert_eq!(t.output.texel(1, 0).seed, Some(Seed { x: 0, y: 0 }));
}

#[test]
fn higher_priority_in_band_beats_nearer_seed() {
    // Pixel 3: seed 4 (priority 1) is 1 px away; seed 0 (priority 5, 10 px
    // outline) is 3 px away and its band covers the pixel.
    let frags = vec![frag(0, 0, 5, owner(5, 10)), frag(4, 0, 5, owner(1, 10))];
    let mut t = seeded(5, 1, &frags);
    jump_flood(&mut t, 2);
    assert_eq!(t.output.texel(3, 0).seed, Some(Seed { x: 0, y: 0 }));
}

#[test]
fn equal_distance_and_priority_tie_keeps_first_examined() {
    let t = seeded(9, 1, &vec![frag(0, 0, 5, owner(3, 9)), frag(8, 0, 5, owner(3, 9))]);
    // Candidates at offset -4 come before +4 in the examination order.
    let r = nearest_seed(&t.output, 4, 0, 4);
    assert_eq!(r.seed, Some(Seed { x: 0, y: 0 }));
}

#[test]
fn round_without_seeds_propagates_empty() {
    let src = SeedBuffer::cleared(3, 3);
    let mut dst = SeedBuffer::cleared(3, 3);
    flood_round(&src, &mut dst, 1);
    assert!(dst.texels.iter().all(|t| *t == Texel::cleared()));
}

#[test]
fn candidates_are_clamped_to_the_buffer() {
    let t = seeded(3, 3, &vec![frag(2, 2, 5, owner(1, 9))]);
    // A step far beyond the buffer still finds the corner seed.
    let r = nearest_seed(&t.output, 0, 0, 1000);
    assert_eq!(r.seed, Some(Seed { x: 2, y: 2 }));
}

#[test]
fn flip_swaps_buffers() {
    let mut t = seeded(2, 2, &vec![frag(0, 0, 5, owner(1, 1))]);
    t.flip();
    assert_eq!(t.input.texel(0, 0).seed, Some(Seed { x: 0, y: 0 }));
    assert!(t.output.texel(0, 0).seed.is_none());
    assert_eq!(t.size(), (2, 2));
}
