use color_life::game_simulation::{
    as_vector, initialize_game, initialize_game_with_density, next_generation, populate_grid, Cell,
};
use color_life::matrix::SmallMatrix;

fn empty_grid(rows: usize, columns: usize) -> SmallMatrix<Cell> {
    SmallMatrix::new(rows, columns).unwrap()
}

fn pack(r: u8, g: u8, b: u8) -> u32 {
    ((r as u32) << 16) | ((g as u32) << 8) | (b as u32)
}

#[test]
fn initialize_is_deterministic() {
    let g1 = initialize_game(6, 5, 15);
    let g2 = initialize_game(6, 5, 15);
    assert_eq!(g1.get_size(), (6, 5));
    assert_eq!(as_vector(&g1), as_vector(&g2));
}

#[test]
fn populate_matches_initialize() {
    let mut g1 = empty_grid(3, 4);
    populate_grid(&mut g1, 42);
    let g2 = initialize_game(3, 4, 42);
    assert_eq!(as_vector(&g1), as_vector(&g2));
}

#[test]
fn zero_density_leaves_all_cells_dead() {
    let g = initialize_game_with_density(4, 4, 99, 0, 1);
    for packed in as_vector(&g) {
        assert_eq!(packed, 0);
    }
}

#[test]
fn full_density_draws_real_colors() {
    // With density 1/1 every cell is drawn alive and gets three drawn
    // channels; for this seed the drawn colors are not all zero.
    let g = initialize_game_with_density(4, 4, 7, 1, 1);
    assert!(as_vector(&g).iter().any(|&packed| packed != 0));
}

#[test]
fn seed_changes_outcome() {
    let g1 = initialize_game(8, 8, 1);
    let g2 = initialize_game(8, 8, 2);
    assert_ne!(as_vector(&g1), as_vector(&g2));
}

#[test]
fn lone_cell_dies() {
    let mut g = empty_grid(4, 4);
    g.set_val_at(1, 1, Cell::new(0, 0, 5)).unwrap();
    next_generation(&mut g);
    for packed in as_vector(&g) {
        assert_eq!(packed, 0);
    }
}

#[test]
fn cell_with_four_living_neighbors_dies() {
    // A plus shape: the center cell has exactly 4 living neighbors.
    let mut g = empty_grid(3, 3);
    g.set_val_at(0, 1, Cell::new(10, 10, 10)).unwrap();
    g.set_val_at(1, 0, Cell::new(10, 10, 10)).unwrap();
    g.set_val_at(1, 1, Cell::new(10, 10, 10)).unwrap();
    g.set_val_at(1, 2, Cell::new(10, 10, 10)).unwrap();
    g.set_val_at(2, 1, Cell::new(10, 10, 10)).unwrap();
    next_generation(&mut g);
    assert!(!g.get_val_at(1, 1).unwrap().is_alive());
}

#[test]
fn block_survives_and_complements_color() {
    let mut g = empty_grid(4, 4);
    for &(x, y) in &[(1, 1), (1, 2), (2, 1), (2, 2)] {
        g.set_val_at(x, y, Cell::new(10, 20, 30)).unwrap();
    }
    next_generation(&mut g);
    let frame = as_vector(&g);
    for x in 0..4 {
        for y in 0..4 {
            let expected = if (1..=2).contains(&x) && (1..=2).contains(&y) {
                pack(245, 235, 225)
            } else {
                0
            };
            assert_eq!(frame[x * 4 + y], expected);
        }
    }
    // The complement of the complement restores the original color.
    next_generation(&mut g);
    let frame = as_vector(&g);
    for x in 0..4 {
        for y in 0..4 {
            let expected = if (1..=2).contains(&x) && (1..=2).contains(&y) {
                pack(10, 20, 30)
            } else {
                0
            };
            assert_eq!(frame[x * 4 + y], expected);
        }
    }
}

#[test]
fn corner_cell_considers_exactly_three_neighbors() {
    // In a fully-alive 2x2 grid each cell, corner cells included, has exactly
    // 3 living neighbors after edge clamping, so everything survives with the
    // complemented color.
    let mut g = empty_grid(2, 2);
    for x in 0..2 {
        for y in 0..2 {
            g.set_val_at(x, y, Cell::new(100, 0, 0)).unwrap();
        }
    }
    next_generation(&mut g);
    for packed in as_vector(&g) {
        assert_eq!(packed, pack(155, 255, 255));
    }
}

#[test]
fn birth_inherits_neighbor_average() {
    // (0, 0) is dead with exactly 3 living neighbors; their red channels
    // average to 70 / 3 = 23 by integer division.
    let mut g = empty_grid(3, 3);
    g.set_val_at(0, 1, Cell::new(10, 0, 0)).unwrap();
    g.set_val_at(1, 0, Cell::new(20, 0, 0)).unwrap();
    g.set_val_at(1, 1, Cell::new(40, 0, 0)).unwrap();
    next_generation(&mut g);
    let corner = *g.get_val_at(0, 0).unwrap();
    assert_eq!(
        (corner.curr_r, corner.curr_g, corner.curr_b),
        (23, 0, 0)
    );
    // The far corner saw only 1 living neighbor and stays dead.
    assert!(!g.get_val_at(2, 2).unwrap().is_alive());
}

#[test]
fn stable_survivor_keeps_its_color() {
    // On a diagonal line of 3, the middle cell has exactly 2 living
    // neighbors and survives unchanged; the endpoints have 1 and die, and no
    // dead cell has 3 living neighbors.
    let mut g = empty_grid(3, 3);
    g.set_val_at(0, 0, Cell::new(7, 8, 9)).unwrap();
    g.set_val_at(1, 1, Cell::new(50, 60, 70)).unwrap();
    g.set_val_at(2, 2, Cell::new(1, 2, 3)).unwrap();
    next_generation(&mut g);
    let frame = as_vector(&g);
    for x in 0..3 {
        for y in 0..3 {
            let expected = if (x, y) == (1, 1) { pack(50, 60, 70) } else { 0 };
            assert_eq!(frame[x * 3 + y], expected);
        }
    }
}

#[test]
fn frame_packs_every_cell() {
    let mut g = empty_grid(2, 3);
    for x in 0..2 {
        for y in 0..3 {
            g.set_val_at(x, y, Cell::new(1, 2, 3)).unwrap();
        }
    }
    g.set_val_at(1, 2, Cell::new(255, 255, 255)).unwrap();
    let frame = as_vector(&g);
    assert_eq!(frame.len(), 6);
    for k in 0..5 {
        assert_eq!(frame[k], 0x010203);
    }
    assert_eq!(frame[5], 0x00FF_FFFF);
}
