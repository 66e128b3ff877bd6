use pathtracer::frame::{
    converged_total, frame_bytes, frame_dimensions, new_frame, report_due, PixelAction, PixelRow,
    MIN_SAMPLES_BEFORE_SKIP, TILE_SIZE,
};
use pathtracer::material_mgr::{MaterialId, MaterialMgr};
use pathtracer::mesh::{flatten_positions, triangle_corners, vec_u32_from_vec_u16};
use pathtracer::path::{bounce_action, Bounce, MAX_DEPTH, ROULETTE_DEPTH};

#[test]
fn material_id_round_trip() {
    assert_eq!(MaterialId::new(0).as_usize(), 0);
    assert_eq!(MaterialId::new(42).as_usize(), 42);
}

#[test]
fn material_ids_are_sequential() {
    let mut mgr: MaterialMgr<&str> = MaterialMgr::new();
    let a = mgr.add("white", Some("lambert_white"));
    let b = mgr.add("red", None);
    let c = mgr.add("blue", Some("lambert_blue"));
    assert_eq!(a.as_usize(), 0);
    assert_eq!(b.as_usize(), 1);
    assert_eq!(c.as_usize(), 2);
}

#[test]
fn material_get_after_add() {
    let mut mgr: MaterialMgr<u32> = MaterialMgr::new();
    let a = mgr.add(10, Some("a"));
    let b = mgr.add(20, Some("b"));
    assert_eq!(mgr.get_from_id(a), Some(&10));
    assert_eq!(mgr.get_from_id(b), Some(&20));
    // adding more keeps earlier materials in place
    let c = mgr.add(30, Some("a"));
    assert_eq!(mgr.get_from_id(a), Some(&10));
    assert_eq!(mgr.get_from_id(c), Some(&30));
}

#[test]
fn material_unknown_id() {
    let mut mgr: MaterialMgr<u32> = MaterialMgr::new();
    assert_eq!(mgr.get_from_id(MaterialId::new(0)), None);
    mgr.add(1, None);
    assert_eq!(mgr.get_from_id(MaterialId::new(1)), None);
    assert_eq!(mgr.get_from_id(MaterialId::new(usize::MAX)), None);
}

#[test]
fn widen_indices() {
    let v: Vec<u16> = vec![0, 1, 65535, 7];
    assert_eq!(vec_u32_from_vec_u16(&v), vec![0u32, 1, 65535, 7]);
    assert_eq!(vec_u32_from_vec_u16(&Vec::new()), Vec::<u32>::new());
}

#[test]
fn flatten_vertex_positions() {
    let verts: Vec<[f32; 3]> = vec![[1.0, 2.0, 3.0], [4.0, 5.0, 6.0]];
    assert_eq!(flatten_positions(&verts), vec![1.0f32, 2.0, 3.0, 4.0, 5.0, 6.0]);
    let empty: Vec<[i32; 3]> = Vec::new();
    assert!(flatten_positions(&empty).is_empty());
}

#[test]
fn gather_triangle_corners() {
    // a quad: four vertices, two triangles
    let verts: Vec<i32> = vec![0, 0, 0, 1, 0, 0, 1, 1, 0, 0, 1, 0];
    let indices: Vec<u32> = vec![0, 1, 2, 2, 3, 0];
    let tris = triangle_corners(&verts, &indices);
    assert_eq!(tris.len(), 2);
    assert_eq!(tris[0], [[0, 0, 0], [1, 0, 0], [1, 1, 0]]);
    assert_eq!(tris[1], [[1, 1, 0], [0, 1, 0], [0, 0, 0]]);
    assert!(triangle_corners(&verts, &Vec::new()).is_empty());
}

#[test]
fn bounce_thresholds() {
    assert_eq!(bounce_action(0), Bounce::Continue);
    assert_eq!(bounce_action(ROULETTE_DEPTH), Bounce::Continue);
    assert_eq!(bounce_action(4), Bounce::Roulette);
    assert_eq!(bounce_action(MAX_DEPTH), Bounce::Roulette);
    assert_eq!(bounce_action(11), Bounce::Terminate);
    assert_eq!(bounce_action(i32::MAX), Bounce::Terminate);
    assert_eq!(bounce_action(-1), Bounce::Continue);
}

#[test]
fn window_to_frame() {
    assert_eq!(TILE_SIZE, 5);
    assert_eq!(frame_dimensions(800, 600), (160, 120));
    assert_eq!(frame_dimensions(804, 4), (160, 0));
    assert_eq!(frame_dimensions(0, 0), (0, 0));
    assert_eq!(frame_dimensions(-4, -1), (0, 0));
    assert_eq!(frame_dimensions(-5, 9), (usize::MAX, 1));
}

#[test]
fn report_schedule() {
    assert!(report_due(0));
    assert!(!report_due(1));
    assert!(!report_due(299));
    assert!(report_due(300));
    assert!(report_due(600));
}

fn saturate(row: &mut PixelRow, x: usize) {
    while !row.needs_convergence_test(x) {
        row.add_sample(x);
    }
}

#[test]
fn fresh_row() {
    let row = PixelRow::new(3);
    assert_eq!(row.width(), 3);
    for x in 0..3 {
        assert!(!row.is_converged(x));
        assert_eq!(row.sample_count(x), 0);
        assert!(!row.needs_convergence_test(x));
    }
    assert_eq!(row.converged_count(), 0);
}

#[test]
fn sample_counting_and_threshold() {
    let mut row = PixelRow::new(2);
    for i in 1..=MIN_SAMPLES_BEFORE_SKIP {
        assert_eq!(row.add_sample(0), i);
    }
    assert_eq!(row.sample_count(0), 256);
    assert!(!row.needs_convergence_test(0));
    assert_eq!(row.add_sample(0), 257);
    assert!(row.needs_convergence_test(0));
    assert_eq!(row.sample_count(1), 0);
}

#[test]
fn convergence_sticks() {
    let mut row = PixelRow::new(4);
    saturate(&mut row, 2);
    row.set_pixel(2, 1, 2, 3);
    row.mark_converged(2);
    row.add_sample(1);
    row.set_pixel(1, 4, 5, 6);
    assert!(row.is_converged(2));
    assert_eq!(row.sample_count(2), 257);
    assert!(!row.is_converged(1));
    assert_eq!(row.converged_count(), 1);
    row.mark_converged(2);
    assert_eq!(row.converged_count(), 1);
    saturate(&mut row, 0);
    row.mark_converged(0);
    assert_eq!(row.converged_count(), 2);
}

#[test]
fn pixel_bytes_are_rgba() {
    let mut rows = new_frame(2, 2);
    rows[0].set_pixel(1, 10, 20, 30);
    rows[1].set_pixel(0, 40, 50, 60);
    let bytes = frame_bytes(&rows);
    assert_eq!(
        bytes,
        vec![0, 0, 0, 0, 10, 20, 30, 255, 40, 50, 60, 255, 0, 0, 0, 0]
    );
}

#[test]
fn frame_convergence_total() {
    let mut rows = new_frame(3, 2);
    assert_eq!(converged_total(&rows), 0);
    for (y, x) in [(0, 0), (1, 1), (1, 2)] {
        saturate(&mut rows[y], x);
        rows[y].mark_converged(x);
    }
    assert_eq!(converged_total(&rows), 3);
    assert_eq!(frame_bytes(&rows).len(), 24);
    let empty = new_frame(5, 0);
    assert_eq!(converged_total(&empty), 0);
    assert!(frame_bytes(&empty).is_empty());
}

#[test]
fn pixel_step_decisions() {
    let mut row = PixelRow::new(2);
    // too few samples: the tolerance test does not count yet
    assert_eq!(row.pixel_step(0, true, true), PixelAction::Sample);
    assert_eq!(row.pixel_step(0, false, true), PixelAction::Finish);
    saturate(&mut row, 0);
    assert_eq!(row.pixel_step(0, true, false), PixelAction::Sample);
    assert_eq!(row.pixel_step(0, true, true), PixelAction::Converge);
    assert_eq!(row.pixel_step(0, false, true), PixelAction::Finish);
    row.set_pixel(0, 9, 9, 9);
    row.mark_converged(0);
    assert_eq!(row.pixel_step(0, true, true), PixelAction::Skip);
    assert_eq!(row.pixel_step(0, false, false), PixelAction::Skip);
    assert_eq!(row.pixel_step(1, true, false), PixelAction::Sample);
}
