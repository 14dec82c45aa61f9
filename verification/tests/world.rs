//! What is decided of a round's world, and of the scene that shows it.

use waldo_core::figure::{build_character, rebased, Paint, Piece};
use waldo_core::protocol::Spot;
use waldo_core::rng::Rng;
use waldo_core::scene::{aim, deal, looks_of, time_left, Aim, Looks, Marker, Pointer, Stage};
use waldo_core::shapes::{draw_windings, mesh_indices, shape_name, weld, Family};
use waldo_core::state::{Game, Ping, Tint};
use waldo_core::worldgen::{
    cast_member, hex, kind_spec, mutator_opts, paint, palettes, pick_triangle, CastPlacer, Crop,
    GenOptions, Spacing, CAST, CAST_CLEARANCE, KINDS,
};

fn bits(x: f32) -> u32 {
    x.to_bits()
}

/// The triangles of a patch, written out the plain way.
fn plain_patch(out: &mut Vec<u32>, base: u32, nu: u32, nv: u32) {
    let stride = nv + 1;
    for i in 0..nu {
        for j in 0..nv {
            let a = base + i * stride + j;
            let b = a + stride;
            out.extend_from_slice(&[a, b, a + 1, b, b + 1, a + 1]);
        }
    }
}

const FAMILY: [Family; 7] = [
    Family::Donut,
    Family::Ellipsoid,
    Family::Knot,
    Family::Cube,
    Family::Capsule,
    Family::Cone,
    Family::Asteroid,
];

#[test]
fn every_shape_is_cut_into_triangles_of_its_own_vertices() {
    for family in FAMILY {
        for capped in [false, true] {
            let sizes = family.patches(capped);
            let indices = mesh_indices(&sizes);
            let mut expected = Vec::new();
            let mut vertices = 0;
            for (nu, nv) in &sizes {
                plain_patch(&mut expected, vertices, *nu, *nv);
                vertices += (nu + 1) * (nv + 1);
            }
            assert_eq!(indices, expected);
            assert!(indices.iter().all(|i| *i < vertices) && indices.len() % 3 == 0);
        }
    }
    assert_eq!(Family::Cone.patches(true).len(), 3);
    assert_eq!(Family::Cone.patches(false).len(), 2);
    assert_eq!(Family::Cube.patches(false).len(), 6);
}

#[test]
fn a_seed_picks_a_shape_and_may_make_it_wobble() {
    let mut seen = std::collections::BTreeSet::new();
    for seed in 0..60 {
        let mut rng = Rng::new(seed);
        let mut mirror = Rng::new(seed);
        let family = Family::draw(&mut rng);
        assert_eq!(family, FAMILY[mirror.below(7)]);
        let wobbly = family.wobbles(&mut rng);
        if family == Family::Asteroid {
            assert!(!wobbly);
        } else {
            assert_eq!(wobbly, mirror.unit() as f32 / 16_777_216.0 < 0.5);
        }
        assert_eq!(rng.next_u32(), mirror.next_u32());
        seen.insert(shape_name(family, wobbly));
    }
    assert_eq!(seen.len(), 13);
    assert_eq!(shape_name(Family::Knot, true), "Wobbly Knot");
    assert_eq!(shape_name(Family::Asteroid, false), "Asteroid");
}

#[test]
fn knots_wind_as_drawn() {
    let table = [(2, 3), (3, 2), (2, 5), (3, 4), (3, 5), (4, 3)];
    for seed in 0..40 {
        let mut rng = Rng::new(seed);
        let mut mirror = Rng::new(seed);
        assert_eq!(draw_windings(&mut rng), table[mirror.below(6)]);
    }
}

#[test]
fn vertices_in_one_cell_are_one_point() {
    let cells = vec![(0, 0, 0), (1, 2, 3), (0, 0, 0), (-1, i32::MIN, i32::MAX), (1, 2, 3), (-1, i32::MIN, i32::MAX), (2, 1, 3)];
    assert_eq!(weld(&cells), vec![0, 1, 0, 3, 1, 3, 6]);
    assert_eq!(weld(&Vec::new()), Vec::<usize>::new());
}

#[test]
fn mutators_turn_the_knobs() {
    assert_eq!(mutator_opts("crowded"), GenOptions { density_pct: 170, size_pct: 100 });
    assert_eq!(mutator_opts("tiny"), GenOptions { density_pct: 100, size_pct: 62 });
    assert_eq!(mutator_opts("night"), GenOptions::default());
    assert_eq!(170.0f32 / 100.0, 1.7f32);
    assert_eq!(62.0f32 / 100.0, 0.62f32);
}

#[test]
fn a_sample_falls_into_the_triangle_that_reaches_it() {
    let areas = [0.5f32, 0.5, 1.25, 3.0, 3.0, 7.5];
    let totals: Vec<u32> = areas.iter().map(|a| bits(*a)).collect();
    for target in [0.0f32, 0.25, 0.5, 0.6, 1.25, 2.9, 3.0, 3.1, 7.5, 9.0] {
        let expected = areas.partition_point(|a| *a < target).min(areas.len() - 1);
        assert_eq!(pick_triangle(&totals, bits(target)), expected);
    }
}

#[test]
fn the_cast_is_spaced_and_placed_all_the_same() {
    let spacing = Spacing { from_waldo: bits(3.0), between: bits(2.5) };
    let mut placer = CastPlacer::new();
    assert!(!placer.consider(bits(2.9), &vec![], spacing));
    assert!(placer.consider(bits(3.0), &vec![], spacing));
    assert!(!placer.consider(bits(9.0), &vec![bits(2.4)], spacing));
    for _ in 0..99 {
        assert!(!placer.consider(0, &vec![0], spacing));
    }
    assert!(placer.consider(0, &vec![0], spacing), "after enough tries any place will do");
    assert!(placer.consider(bits(9.0), &vec![bits(9.0), bits(2.5)], spacing));
    assert!(!placer.is_done());
    assert!(placer.consider(bits(9.0), &vec![bits(9.0); 3], spacing));
    assert!(placer.is_done());
    let roles: Vec<&str> = (0..CAST).map(|i| cast_member(i).0).collect();
    assert_eq!(roles, ["wenda", "odlaw", "woof", "wizard"]);
    let heights: Vec<f32> = (0..CAST).map(|i| cast_member(i).1 as f32 / 10.0).collect();
    assert_eq!(heights, [1.5, 1.5, 0.9, 1.6]);
}

#[test]
fn scenery_keeps_clear_and_gives_up_in_time() {
    let mut crop = Crop::new(2);
    assert!(crop.wants_more());
    assert!(!crop.consider(bits(0.7), &vec![bits(9.0)], bits(0.8)));
    assert!(!crop.consider(bits(0.8), &vec![bits(9.0), bits(0.59)], bits(0.8)));
    assert!(crop.consider(bits(0.8), &vec![bits(0.6)], bits(0.8)));
    assert!(crop.consider(bits(5.0), &vec![], bits(0.8)));
    assert!(!crop.wants_more());
    assert_eq!((crop.placed, crop.tries), (2, 4));

    let mut crop = Crop::new(3);
    let mut tries = 0;
    while crop.wants_more() {
        crop.consider(0, &vec![], 1);
        tries += 1;
    }
    assert_eq!((tries, crop.placed), (90, 0));
    assert_eq!(f32::from_bits(CAST_CLEARANCE), 0.6);
}

#[test]
fn the_kinds_of_scenery_are_these() {
    let table = [
        ("pine", 220, 420, 0.8f32),
        ("tree", 90, 200, 0.8),
        ("bush", 120, 260, 0.6),
        ("building", 120, 240, 1.6),
        ("house", 45, 100, 1.4),
        ("tower", 25, 60, 1.6),
        ("dome", 15, 40, 1.4),
        ("pond", 12, 30, 1.2),
        ("car", 30, 80, 0.6),
        ("rock", 50, 120, 0.7),
        ("decoy", 5, 12, 3.5),
    ];
    assert_eq!(KINDS, table.len());
    for (i, (kind, min, max, clearance)) in table.iter().enumerate() {
        let k = kind_spec(i);
        assert_eq!((k.kind, k.count_min, k.count_max), (*kind, *min, *max));
        assert_eq!(f32::from_bits(k.clearance), *clearance);
        assert!(!matches!(looks_of(kind), Looks::Nothing));
    }
}

#[test]
fn scenery_is_painted_from_its_palette() {
    assert_eq!(hex(0x2e7d32), (0x2e, 0x7d, 0x32));
    assert_eq!(palettes("pine").0.len(), 5);
    assert_eq!(palettes("building").0.len(), 8);
    let (roofs, walls) = palettes("house");
    assert_eq!((roofs.len(), walls.len()), (3, 3));
    assert_eq!(palettes("rock"), (Vec::new(), Vec::new()));
    let mut rng = Rng::new(8);
    let mut mirror = Rng::new(8);
    assert_eq!(paint(&mut rng, &Vec::new()), None);
    for _ in 0..20 {
        assert_eq!(paint(&mut rng, &roofs), Some(hex(roofs[mirror.below(3)])));
    }
}

#[test]
fn scenery_is_drawn_with_models_in_turn() {
    match looks_of("dome") {
        Looks::Models { names, size_pct } => {
            assert_eq!(names, vec!["detail-parasol-a", "detail-parasol-b"]);
            assert_eq!(size_pct, 55);
        }
        _ => panic!("domes have models"),
    }
    assert!(matches!(looks_of("pond"), Looks::Pond));
    assert!(matches!(looks_of("decoy"), Looks::Decoy));
    assert!(matches!(looks_of("castle"), Looks::Nothing));
    assert_eq!(deal(7, 3), vec![vec![0, 3, 6], vec![1, 4], vec![2, 5]]);
    assert_eq!(deal(0, 2), vec![Vec::<usize>::new(), Vec::new()]);
}

#[test]
fn characters_are_put_together_from_their_parts() {
    let woof = build_character("woof");
    assert_eq!(woof.len(), 3);
    assert_eq!(woof[0], (Piece::TailBands, Paint::Red));
    assert_eq!(build_character("wizard").len(), 5);
    assert_eq!(build_character("wenda").len(), 3 + 5 + 1 + 4);
    assert_eq!(build_character("odlaw").len(), 7 + 2 + 4);
    let waldo = build_character("waldo");
    assert_eq!(waldo.len(), 7 + 1 + 4 + 1);
    assert_eq!(waldo[0], (Piece::Legs, Paint::Jeans));
    assert_eq!(waldo.last(), Some(&(Piece::Cane, Paint::Brown)));
    assert_eq!(build_character("stranger"), waldo);
    assert_eq!(Paint::Skin.rgb(), (242, 200, 150));
    assert_eq!(rebased(&vec![0, 2, 1], 10), vec![10, 12, 11]);
}

#[test]
fn a_short_drag_is_a_click() {
    let mut p = Pointer { dragging: false };
    assert!(!p.release(0), "it was never pressed");
    p.press();
    assert!(p.drags(true) && !p.drags(false));
    assert!(p.release(bits(3.9)));
    assert!(!p.dragging);
    p.press();
    assert!(!p.release(bits(4.0)));
    assert!(Pointer::turns(bits(4.1)) && !Pointer::turns(bits(4.0)));
}

#[test]
fn clicks_go_to_characters_unless_the_planet_hides_them() {
    let owner = vec![0, 0, 1];
    assert_eq!(aim(Some(2), false, false, &owner), Aim::Character(1));
    assert_eq!(aim(Some(1), true, false, &owner), Aim::Character(0));
    assert_eq!(aim(Some(1), true, true, &owner), Aim::Ground);
    assert_eq!(aim(None, true, true, &owner), Aim::Ground);
    assert_eq!(aim(None, false, true, &owner), Aim::Nothing);
}

fn at(n: u32) -> Spot {
    Spot { x: n, y: n, z: n }
}

#[test]
fn markers_come_and_go() {
    let mut stage = Stage::build(4, "night");
    assert_eq!((stage.built_round, stage.night, stage.revealed), (4, true, false));
    assert!(!Stage::build(4, "").night);
    let mut game = Game::new();
    game.pings.push(Ping { at: at(1), tint: Tint::Gold });
    game.pings.push(Ping { at: at(2), tint: Tint::Amber });
    assert_eq!(stage.show(&mut game, 100), None);
    assert!(game.pings.is_empty());
    game.found = true;
    game.pings.push(Ping { at: at(3), tint: Tint::Gold });
    game.reveal = Some(at(9));
    assert_eq!(stage.show(&mut game, 200), Some(at(9)));
    assert_eq!((game.reveal, stage.revealed), (None, true));
    let marker = |n, tint, born_ms, persistent| Marker { at: at(n), tint, born_ms, persistent };
    assert_eq!(
        stage.markers,
        vec![
            marker(1, Tint::Gold, 100, false),
            marker(2, Tint::Amber, 100, false),
            marker(3, Tint::Gold, 200, true),
            marker(9, Tint::Gold, 200, true),
        ]
    );
    assert_eq!(stage.show(&mut game, 300), None);
    assert_eq!(stage.markers.len(), 4);
    assert!(!stage.tidy(1099));
    assert!(stage.tidy(1100));
    assert_eq!(stage.markers.len(), 2);
    assert!(!stage.tidy(99_999));
}

#[test]
fn the_clock_runs_only_during_a_round() {
    let mut game = Game::new();
    game.ends_at_ms = 5000;
    assert_eq!(time_left(&game, 1000), None);
    game.playing = true;
    assert_eq!(time_left(&game, 1000), Some(4000));
    assert_eq!(time_left(&game, 6000), Some(0));
}
