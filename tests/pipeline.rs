use rand::rngs::StdRng;
use rand::SeedableRng;
use voronoi_art::geometry::{get_centroid, move_to_centroid, shrink_polygon, Point, Ratio, UNIT};
use voronoi_art::path::{assemble_path, gen_base_box, PathCommand, PathError};
use voronoi_art::sites::{
    generate_sites_with_random, grid_steps, jittered_grid, noise_lattice, select_sites, SiteError,
    GRID_POINTS,
};

fn pt(x: i64, y: i64) -> Point {
    Point::new(x, y)
}

fn square(side: i64) -> Vec<Point> {
    vec![pt(0, 0), pt(side, 0), pt(side, side), pt(0, side)]
}

#[test]
fn shrink_by_zero_keeps_vertex() {
    let zero = Ratio::new(0, 7);
    for v in [pt(3, -4), pt(0, 0), pt(123_456, 99)] {
        assert_eq!(move_to_centroid(&v, pt(-50, 800), zero), v);
    }
}

#[test]
fn shrink_by_one_reaches_centroid() {
    let one = Ratio::new(3, 3);
    let c = pt(17, -23);
    for v in [pt(3, -4), pt(0, 0), pt(-999, 1001)] {
        assert_eq!(move_to_centroid(&v, c, one), c);
    }
}

#[test]
fn shrink_interpolates_and_rounds_down() {
    assert_eq!(move_to_centroid(&pt(0, 0), pt(10, -10), Ratio::new(1, 4)), pt(2, -3));
    assert_eq!(move_to_centroid(&pt(0, 0), pt(10, 10), Ratio::new(2, 1)), pt(20, 20));
    assert_eq!(move_to_centroid(&pt(4, 4), pt(0, 0), Ratio::new(-1, 2)), pt(6, 6));
}

#[test]
fn centroid_is_mean_of_vertices() {
    assert_eq!(get_centroid(&square(10 * UNIT)), pt(5 * UNIT, 5 * UNIT));
    assert_eq!(get_centroid(&vec![pt(7, -3)]), pt(7, -3));
    assert_eq!(get_centroid(&vec![pt(-1, 0), pt(0, 1)]), pt(-1, 0));
}

#[test]
fn centroid_order_independent() {
    let a = vec![pt(0, 0), pt(9, 1), pt(4, 7), pt(-3, 2), pt(9, 1)];
    let b = vec![pt(9, 1), pt(-3, 2), pt(9, 1), pt(0, 0), pt(4, 7)];
    assert_eq!(get_centroid(&a), get_centroid(&b));
}

#[test]
fn square_shrunk_halfway() {
    let polygons = vec![square(10 * UNIT)];
    let data = assemble_path(500 * UNIT, &polygons, Ratio::new(1, 2)).unwrap();
    let sub = &data.commands[5..];
    assert_eq!(
        sub,
        &[
            PathCommand::MoveTo(pt(2500, 2500)),
            PathCommand::LineTo(pt(7500, 2500)),
            PathCommand::LineTo(pt(7500, 7500)),
            PathCommand::LineTo(pt(2500, 7500)),
            PathCommand::Close,
        ]
    );
}

#[test]
fn shrink_polygon_keeps_order() {
    let shrunk = shrink_polygon(&square(10 * UNIT), Ratio::new(1, 2));
    assert_eq!(shrunk, vec![pt(2500, 2500), pt(7500, 2500), pt(7500, 7500), pt(2500, 7500)]);
}

#[test]
fn frame_alone_for_no_polygons() {
    let data = assemble_path(500, &Vec::new(), Ratio::new(1, 10)).unwrap();
    assert_eq!(data.commands, gen_base_box(500).commands);
    assert_eq!(
        data.commands,
        vec![
            PathCommand::MoveTo(pt(0, 0)),
            PathCommand::LineTo(pt(500, 0)),
            PathCommand::LineTo(pt(500, 500)),
            PathCommand::LineTo(pt(0, 500)),
            PathCommand::Close,
        ]
    );
    let closes = data.commands.iter().filter(|c| **c == PathCommand::Close).count();
    let lines = data.commands.iter().filter(|c| matches!(c, PathCommand::LineTo(_))).count();
    // Three explicit lines; closing the subpath draws the fourth side.
    assert_eq!((closes, lines), (1, 3));
    assert_eq!(lines + closes, 4);
}

#[test]
fn single_vertex_and_two_vertex_polygons() {
    let polygons = vec![vec![pt(4, 4)], vec![pt(0, 0), pt(10, 0)]];
    let data = assemble_path(20, &polygons, Ratio::new(1, 2)).unwrap();
    assert_eq!(
        &data.commands[5..],
        &[
            PathCommand::MoveTo(pt(4, 4)),
            PathCommand::Close,
            PathCommand::MoveTo(pt(2, 0)),
            PathCommand::LineTo(pt(7, 0)),
            PathCommand::Close,
        ]
    );
}

#[test]
fn empty_polygon_is_rejected() {
    let polygons = vec![square(10), Vec::new(), Vec::new()];
    assert_eq!(
        assemble_path(20, &polygons, Ratio::new(1, 2)).unwrap_err(),
        PathError::EmptyPolygon(1)
    );
}

#[test]
fn random_grid_zero_variance_is_exact() {
    let mut rng = StdRng::seed_from_u64(11);
    let sites = generate_sites_with_random(500 * UNIT, (34, 34), Ratio::new(0, 1), &mut rng).unwrap();
    let step = 500 * UNIT / 34 + UNIT;
    assert_eq!(step, 15_705);
    assert_eq!(sites.len(), 10_000);
    for j in 1..=100i64 {
        for i in 1..=100i64 {
            let k = ((j - 1) * 100 + (i - 1)) as usize;
            assert_eq!(sites[k], pt(i * step, j * step));
        }
    }
}

#[test]
fn random_grid_always_ten_thousand_points() {
    let mut rng = StdRng::seed_from_u64(5);
    for (partition, variance) in [((34, 34), Ratio::new(1, 2)), ((1, 7), Ratio::new(3, 1)), ((500, 2), Ratio::new(-1, 4))] {
        let sites = generate_sites_with_random(500 * UNIT, partition, variance, &mut rng).unwrap();
        assert_eq!(sites.len(), GRID_POINTS);
    }
}

#[test]
fn random_grid_jitter_within_spread() {
    let mut rng = StdRng::seed_from_u64(42);
    let sites = generate_sites_with_random(500 * UNIT, (34, 20), Ratio::new(1, 2), &mut rng).unwrap();
    let (sx, sy) = (500 * UNIT / 34 + UNIT, 500 * UNIT / 20 + UNIT);
    let mut moved = 0;
    for (k, p) in sites.iter().enumerate() {
        let (i, j) = ((k % 100) as i64 + 1, (k / 100) as i64 + 1);
        assert!((p.x - i * sx).abs() <= sx / 2);
        assert!((p.y - j * sy).abs() <= sy / 2);
        if p.x != i * sx || p.y != j * sy {
            moved += 1;
        }
    }
    assert!(moved > 0);
}

#[test]
fn random_grid_rejects_bad_inputs() {
    let mut rng = StdRng::seed_from_u64(1);
    let half = Ratio::new(1, 2);
    assert_eq!(generate_sites_with_random(0, (34, 34), half, &mut rng), Err(SiteError::InvalidBoxSize));
    assert_eq!(generate_sites_with_random(-5, (0, 34), half, &mut rng), Err(SiteError::InvalidBoxSize));
    assert_eq!(generate_sites_with_random(500, (0, 34), half, &mut rng), Err(SiteError::InvalidPartition));
    assert_eq!(generate_sites_with_random(500, (34, -1), half, &mut rng), Err(SiteError::InvalidPartition));
    assert_eq!(grid_steps(500 * UNIT, (34, 20)), Ok((15_705, 26_000)));
}

#[test]
fn jittered_grid_adds_offsets() {
    let offsets: Vec<(i64, i64)> = (0..10_000i64).map(|k| (k, -k)).collect();
    let sites = jittered_grid((10, 20), &offsets);
    assert_eq!(sites[0], pt(10, 20));
    assert_eq!(sites[1], pt(21, 19));
    assert_eq!(sites[100], pt(110, -60));
    assert_eq!(sites[9_999], pt(1000 + 9_999, 2000 - 9_999));
}

#[test]
fn seeded_random_grid_is_deterministic() {
    let run = |seed: u64| {
        let mut rng = StdRng::seed_from_u64(seed);
        let sites = generate_sites_with_random(500 * UNIT, (34, 34), Ratio::new(1, 2), &mut rng).unwrap();
        let cells = voronoi::voronoi(
            sites.iter().map(|p| voronoi::Point::new(p.x as f64 / 1000.0, p.y as f64 / 1000.0)).collect(),
            500.0,
        );
        let polygons: Vec<Vec<Point>> = voronoi::make_polygons(&cells)
            .iter()
            .map(|poly| {
                poly.iter().map(|p| pt((p.x() * 1000.0).round() as i64, (p.y() * 1000.0).round() as i64)).collect()
            })
            .collect();
        assert!(!polygons.is_empty());
        let data = assemble_path(500 * UNIT, &polygons, Ratio::new(1, 10)).unwrap();
        (sites, polygons, data.commands)
    };
    assert_eq!(run(9), run(9));
    assert_ne!(run(9).0, run(10).0);
}

#[test]
fn noise_lattice_is_inset_by_a_tenth() {
    let lattice = noise_lattice(500 * UNIT).unwrap();
    assert_eq!(lattice.len(), 401 * 401);
    assert_eq!(lattice[0], pt(50 * UNIT, 50 * UNIT));
    assert_eq!(lattice[1], pt(51 * UNIT, 50 * UNIT));
    assert_eq!(lattice[401], pt(50 * UNIT, 51 * UNIT));
    assert_eq!(lattice[401 * 401 - 1], pt(450 * UNIT, 450 * UNIT));
    assert_eq!(noise_lattice(0).unwrap_err(), SiteError::InvalidBoxSize);
    assert_eq!(noise_lattice(-1).unwrap_err(), SiteError::InvalidBoxSize);
}

#[test]
fn noise_selection_exceeds_threshold() {
    let lattice = vec![pt(0, 0), pt(1, 0), pt(2, 0), pt(3, 0), pt(4, 0)];
    let noise = vec![5, -6, 3, -3, 0];
    assert_eq!(select_sites(&lattice, &noise, 3), vec![pt(0, 0), pt(1, 0)]);
    assert_eq!(select_sites(&lattice, &noise, 2), vec![pt(0, 0), pt(1, 0), pt(2, 0), pt(3, 0)]);
    assert_eq!(select_sites(&lattice, &noise, -1), lattice);
    assert_eq!(select_sites(&lattice, &noise, i64::MIN), lattice);
    assert_eq!(select_sites(&lattice, &noise, 6), Vec::<Point>::new());
}

#[test]
fn noise_selection_monotone_in_threshold() {
    let lattice: Vec<Point> = (0..50i64).map(|i| pt(i, 2 * i)).collect();
    let noise: Vec<i64> = (0..50i64).map(|i| (i * 37 % 23) - 11).collect();
    let mut last = usize::MAX;
    for t in -12..13 {
        let kept = select_sites(&lattice, &noise, t);
        for p in &kept {
            let v = noise[p.x as usize];
            assert!(v > t || v < -t);
        }
        assert!(kept.len() <= last);
        last = kept.len();
    }
}

#[test]
fn point_arithmetic() {
    assert_eq!(pt(3, -4).plus(pt(10, 20)), pt(13, 16));
    assert_eq!(pt(3, -4).minus(pt(10, 20)), pt(-7, -24));
    assert_eq!(pt(10, -10).scaled(Ratio::new(1, 4)), pt(2, -3));
    assert_eq!(pt(7, 0).scaled(Ratio::new(-3, 2)), pt(-11, 0));
}

#[test]
fn noise_lattice_rounds_inset_up() {
    let lattice = noise_lattice(55 * UNIT).unwrap();
    assert_eq!(lattice.len(), 44 * 44);
    assert_eq!(lattice[0], pt(6 * UNIT, 6 * UNIT));
    assert_eq!(lattice[44 * 44 - 1], pt(49 * UNIT, 49 * UNIT));
    assert_eq!(noise_lattice(10 * UNIT).unwrap().len(), 81);
    assert_eq!(noise_lattice(1).unwrap(), Vec::<Point>::new());
    assert_eq!(noise_lattice(UNIT).unwrap(), Vec::<Point>::new());
}
