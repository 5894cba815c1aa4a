use raytracer::bvh::{plan_bvh, sort_by_keys, split_span, BvhPlan, SpanSplit};
use raytracer::perlin::{apply_swaps, perlin_generate_perm, permute, PerlinHash, POINT_COUNT};
use raytracer::render::{output_row, row_band};
use raytracer::rtweekend::{into_arc, random_i32};
use raytracer::texture::ImageTecture;
use raytracer::trace::{bvh_node_step, ray_color_step, NodeAction, NodeEvent, PathAction, PathEvent};

#[test]
fn row_band_exact_values() {
    assert_eq!(row_band(0, 10, 3), (0, 3));
    assert_eq!(row_band(1, 10, 3), (3, 6));
    assert_eq!(row_band(2, 10, 3), (6, 10));
}

#[test]
fn row_bands_cover_every_row_once() {
    for &(height, threads) in &[(400usize, 15usize), (10, 15), (1, 1), (0, 4), (600, 7)] {
        let mut owner = vec![0usize; height];
        let mut next = 0usize;
        for t in 0..threads {
            let (start, end) = row_band(t, height, threads);
            assert_eq!(start, next);
            assert!(start <= end && end <= height);
            for row in start..end {
                owner[row] += 1;
            }
            next = end;
        }
        assert_eq!(next, height);
        assert!(owner.iter().all(|&c| c == 1));
    }
}

#[test]
fn more_workers_than_rows_leaves_some_bands_empty() {
    let empty = (0..15).filter(|&t| {
        let (s, e) = row_band(t, 10, 15);
        s == e
    });
    assert_eq!(empty.count(), 5);
}

#[test]
fn output_row_flips_vertically() {
    assert_eq!(output_row(0, 5), 4);
    assert_eq!(output_row(4, 5), 0);
    assert_eq!(output_row(2, 5), 2);
}

#[test]
fn split_span_single_pair_and_halves() {
    assert!(matches!(split_span(4, 5), SpanSplit::Single { index: 4 }));
    assert!(matches!(split_span(4, 6), SpanSplit::Pair { first: 4, second: 5 }));
    assert!(matches!(split_span(2, 7), SpanSplit::Halves { start: 2, mid: 4, end: 7 }));
    assert!(matches!(split_span(0, 8), SpanSplit::Halves { start: 0, mid: 4, end: 8 }));
}

fn raster() -> ImageTecture {
    // 3 wide, 2 high; texel (i, j) has bytes (10 * j + i, 100 + i, 200 + j)
    let mut data = Vec::new();
    for j in 0..2u8 {
        for i in 0..3u8 {
            data.push(10 * j + i);
            data.push(100 + i);
            data.push(200 + j);
        }
    }
    ImageTecture::new(data, 3, 2).unwrap()
}

#[test]
fn image_texture_reads_texels() {
    let t = raster();
    assert_eq!(t.width(), 3);
    assert_eq!(t.height(), 2);
    assert_eq!(t.get_pixel(0, 0), (0, 100, 200));
    assert_eq!(t.get_pixel(2, 1), (12, 102, 201));
    assert_eq!(t.get_pixel(1, 1), (11, 101, 201));
}

#[test]
fn image_texture_clamps_coordinates() {
    let t = raster();
    assert_eq!(t.get_pixel(-5, 0), t.get_pixel(0, 0));
    assert_eq!(t.get_pixel(3, 0), t.get_pixel(2, 0));
    assert_eq!(t.get_pixel(100, 100), t.get_pixel(2, 1));
    assert_eq!(t.get_pixel(1, -1), t.get_pixel(1, 0));
    assert_eq!(t.get_pixel(i32::MIN, i32::MAX), (10, 100, 201));
}

#[test]
fn image_texture_rejects_bad_rasters() {
    assert!(ImageTecture::new(vec![0u8; 17], 3, 2).is_none());
    assert!(ImageTecture::new(vec![], 0, 0).is_none());
    assert!(ImageTecture::new(vec![], 0, 5).is_none());
    assert!(ImageTecture::new(vec![1, 2, 3], 1, 1).is_some());
}

#[test]
fn generated_permutation_holds_each_slot_once() {
    let mut p = perlin_generate_perm();
    assert_eq!(p.len(), POINT_COUNT);
    p.sort();
    assert_eq!(p, (0..POINT_COUNT).collect::<Vec<usize>>());
}

#[test]
fn permute_keeps_entries() {
    let mut p = vec![7usize, 7, 1, 9, 3];
    permute(&mut p);
    p.sort();
    assert_eq!(p, vec![1, 3, 7, 7, 9]);
}

#[test]
fn permute_reorders_over_many_draws() {
    let original: Vec<usize> = (0..POINT_COUNT).collect();
    let mut moved = false;
    for _ in 0..4 {
        let mut p = original.clone();
        permute(&mut p);
        moved |= p != original;
    }
    assert!(moved);
}

#[test]
fn lattice_index_is_periodic() {
    let h = PerlinHash::new();
    for &(i, j, k) in &[(0i64, 0i64, 0i64), (3, -4, 17), (-1, 255, 256), (1000, -1000, 7)] {
        let r = h.lattice_index(i, j, k);
        assert!(r < POINT_COUNT);
        assert_eq!(h.lattice_index(i + 256, j, k), r);
        assert_eq!(h.lattice_index(i, j - 256, k), r);
        assert_eq!(h.lattice_index(i, j, k + 512), r);
    }
    assert_eq!(h.lattice_index(-1, 0, 0), h.lattice_index(255, 0, 0));
    assert_eq!(h.lattice_index(i64::MIN, 0, 0), h.lattice_index(0, 0, 0));
    assert_eq!(h.lattice_index(i64::MAX, 0, 0), h.lattice_index(255, 0, 0));
}

#[test]
fn lattice_index_spreads_over_slots() {
    let h = PerlinHash::new();
    let mut seen = vec![false; POINT_COUNT];
    for i in 0..256i64 {
        seen[h.lattice_index(i, 0, 0)] = true;
    }
    assert!(seen.iter().all(|&s| s));
}

#[test]
fn random_i32_stays_in_range_and_reaches_both_ends() {
    let mut seen = [false; 3];
    for _ in 0..1000 {
        let r = random_i32(0, 2);
        assert!((0..=2).contains(&r));
        seen[r as usize] = true;
    }
    assert!(seen.iter().all(|&s| s));
    assert_eq!(random_i32(-7, -7), -7);
}

#[test]
fn into_arc_shares_the_value() {
    let a = into_arc(vec![1, 2, 3]);
    let b = a.clone();
    assert_eq!(*b, vec![1, 2, 3]);
    assert_eq!(std::sync::Arc::strong_count(&a), 2);
}

#[test]
fn apply_swaps_exact_result() {
    // positions 4, 3, 2, 1 swap with 0, 3, 0, 1 in turn
    let mut p = vec![10usize, 11, 12, 13, 14];
    apply_swaps(&mut p, &vec![0, 1, 0, 3, 0]);
    assert_eq!(p, vec![12, 11, 14, 13, 10]);
}

#[test]
fn apply_swaps_with_own_positions_keeps_order() {
    let mut p = vec![3usize, 1, 2];
    apply_swaps(&mut p, &vec![0, 1, 2]);
    assert_eq!(p, vec![3, 1, 2]);
}

#[test]
fn sort_by_keys_orders_objects() {
    let key = vec![40usize, 10, 30, 20, 10];
    let mut v = vec![0usize, 1, 2, 3, 4, 2];
    sort_by_keys(&mut v, &key);
    let keys_in_order: Vec<usize> = v.iter().map(|&o| key[o]).collect();
    assert_eq!(keys_in_order, vec![10, 10, 20, 30, 30, 40]);
    let mut sorted = v.clone();
    sorted.sort();
    assert_eq!(sorted, vec![0, 1, 2, 2, 3, 4]);
}

fn plan_leaves(plan: &BvhPlan, out: &mut Vec<usize>) {
    match plan {
        BvhPlan::Single { object } => out.push(*object),
        BvhPlan::Pair { first, second, .. } => {
            out.push(*first);
            out.push(*second);
        }
        BvhPlan::Split { left, right, .. } => {
            plan_leaves(left, out);
            plan_leaves(right, out);
        }
    }
}

fn check_plan(plan: &BvhPlan, keys: &[Vec<usize>]) -> usize {
    match plan {
        BvhPlan::Single { .. } => 1,
        BvhPlan::Pair { axis, first, second } => {
            assert!(keys[*axis][*first] <= keys[*axis][*second]);
            2
        }
        BvhPlan::Split { axis, left, right } => {
            let (mut l, mut r) = (Vec::new(), Vec::new());
            plan_leaves(left, &mut l);
            plan_leaves(right, &mut r);
            let lmax = l.iter().map(|&o| keys[*axis][o]).max().unwrap();
            let rmin = r.iter().map(|&o| keys[*axis][o]).min().unwrap();
            assert!(lmax <= rmin);
            let total = check_plan(left, keys) + check_plan(right, keys);
            assert!(total >= 3);
            assert_eq!(l.len(), total / 2);
            total
        }
    }
}

#[test]
fn plan_bvh_refuses_empty_set() {
    let keys = vec![vec![], vec![], vec![]];
    assert!(plan_bvh(vec![], &keys).is_none());
}

#[test]
fn plan_bvh_single_object() {
    let keys = vec![vec![0], vec![0], vec![0]];
    assert!(matches!(plan_bvh(vec![0], &keys), Some(BvhPlan::Single { object: 0 })));
}

#[test]
fn plan_bvh_pair_is_ordered() {
    let keys = vec![vec![1, 0], vec![1, 0], vec![1, 0]];
    match plan_bvh(vec![0, 1], &keys) {
        Some(BvhPlan::Pair { first: 1, second: 0, .. }) => {}
        _ => panic!("expected the pair ordered by key"),
    }
}

#[test]
fn plan_bvh_leaves_hold_exactly_the_objects() {
    let n = 37usize;
    let keys: Vec<Vec<usize>> = vec![
        (0..n).collect(),
        (0..n).rev().collect(),
        (0..n).map(|i| (i * 7) % n).collect(),
    ];
    for _ in 0..5 {
        let plan = plan_bvh((0..n).collect(), &keys).unwrap();
        let mut leaves = Vec::new();
        plan_leaves(&plan, &mut leaves);
        leaves.sort();
        assert_eq!(leaves, (0..n).collect::<Vec<usize>>());
        assert_eq!(check_plan(&plan, &keys), n);
    }
}

#[test]
fn ray_color_step_spent_budget_gives_black() {
    assert_eq!(ray_color_step(0, PathEvent::Start), PathAction::ReturnBlack);
    assert_eq!(ray_color_step(-3, PathEvent::Start), PathAction::ReturnBlack);
    assert_eq!(ray_color_step(1, PathEvent::Start), PathAction::TestHit);
    assert_eq!(ray_color_step(50, PathEvent::Start), PathAction::TestHit);
}

#[test]
fn ray_color_step_after_hit_test() {
    assert_eq!(ray_color_step(5, PathEvent::Missed), PathAction::ReturnBackground);
    assert_eq!(ray_color_step(5, PathEvent::Absorbed), PathAction::ReturnEmitted);
    assert_eq!(ray_color_step(5, PathEvent::Scattered), PathAction::AddScattered { depth: 4 });
    assert_eq!(ray_color_step(1, PathEvent::Scattered), PathAction::AddScattered { depth: 0 });
}

#[test]
fn bvh_node_step_missed_box_asks_no_child() {
    assert!(matches!(
        bvh_node_step(10.0f64, NodeEvent::BoxTested { hit: false }),
        NodeAction::ReportMiss
    ));
    assert!(matches!(
        bvh_node_step(10.0f64, NodeEvent::BoxTested { hit: true }),
        NodeAction::AskLeft { limit } if limit == 10.0
    ));
}

#[test]
fn bvh_node_step_right_child_limited_by_left_hit() {
    assert!(matches!(
        bvh_node_step(10.0f64, NodeEvent::LeftAnswered { left_t: Some(2.5) }),
        NodeAction::AskRight { limit } if limit == 2.5
    ));
    assert!(matches!(
        bvh_node_step(10.0f64, NodeEvent::LeftAnswered { left_t: None }),
        NodeAction::AskRight { limit } if limit == 10.0
    ));
}

#[test]
fn bvh_node_step_reports_right_before_left() {
    let step = |l, r| bvh_node_step(1u32, NodeEvent::RightAnswered { left_hit: l, right_hit: r });
    assert!(matches!(step(true, true), NodeAction::ReportRight));
    assert!(matches!(step(false, true), NodeAction::ReportRight));
    assert!(matches!(step(true, false), NodeAction::ReportLeft));
    assert!(matches!(step(false, false), NodeAction::ReportMiss));
}
