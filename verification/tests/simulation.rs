//! Tests of the simulation: construction, the blocked mask, and `evolve`.

use gridsim::BlockedMask;
use gridsim::Cell;
use gridsim::ConstantSolver;
use gridsim::IdentitySolver;
use gridsim::Position;
use gridsim::SimError;
use gridsim::Simulation;

/// An all-white (no blocked pixels) RGBA image for a width x height domain.
fn white_image(width: usize, height: usize) -> Vec<u8> {
    vec![255u8; 4 * width * height]
}

fn sample_cell() -> Cell {
    Cell { velocity: (1, 0), pressure: 5, temperature: 300 }
}

#[test]
fn construction_gives_zero_state_everywhere() {
    let sim = Simulation::new(3, 2, white_image(3, 2)).unwrap();
    for y in 0..2 {
        for x in 0..3 {
            assert_eq!(*sim.get(&Position::new(x, y)), Cell::new());
        }
    }
}

#[test]
fn outside_reads_zero_state_regardless_of_steps() {
    let mut sim = Simulation::new(2, 2, white_image(2, 2)).unwrap();
    let outside = [(-1, 0), (2, 0), (0, 2), (7, -7)];
    for p in outside {
        assert_eq!(*sim.get(&Position::new(p.0, p.1)), Cell::new());
    }
    sim.evolve(ConstantSolver { cell: sample_cell() });
    sim.evolve(ConstantSolver { cell: sample_cell() });
    for p in outside {
        assert_eq!(*sim.get(&Position::new(p.0, p.1)), Cell::new());
    }
}

#[test]
fn mask_is_stable_across_evolves() {
    let mut image = white_image(2, 2);
    image[0] = 0;
    let mut sim = Simulation::new(2, 2, image).unwrap();
    assert!(sim.is_blocked(&Position::new(0, 0)));
    assert!(!sim.is_blocked(&Position::new(1, 0)));
    for _ in 0..5 {
        sim.evolve(ConstantSolver { cell: sample_cell() });
        assert!(sim.is_blocked(&Position::new(0, 0)));
        assert!(!sim.is_blocked(&Position::new(1, 0)));
        assert!(!sim.is_blocked(&Position::new(-1, 0)));
    }
}

#[test]
fn blocked_cell_value_is_carried_forward() {
    let mut image = white_image(2, 2);
    image[0] = 0;
    let mut sim = Simulation::new(2, 2, image).unwrap();
    // two steps in a row: a blocked cell must keep its value even though the
    // back buffer holds scratch data from earlier steps
    sim.evolve(ConstantSolver { cell: sample_cell() });
    assert_eq!(*sim.get(&Position::new(0, 0)), Cell::new());
    sim.evolve(ConstantSolver { cell: Cell { velocity: (9, 9), pressure: 9, temperature: 9 } });
    assert_eq!(*sim.get(&Position::new(0, 0)), Cell::new());
}

#[test]
fn evolve_all_open_applies_solver_everywhere() {
    let mut sim = Simulation::new(2, 2, white_image(2, 2)).unwrap();
    sim.evolve(ConstantSolver { cell: sample_cell() });
    for y in 0..2 {
        for x in 0..2 {
            assert_eq!(*sim.get(&Position::new(x, y)), sample_cell());
        }
    }
}

#[test]
fn evolve_skips_blocked_cell_and_updates_the_rest() {
    let mut image = white_image(2, 2);
    image[0] = 0;
    image[1] = 0;
    image[2] = 0;
    let mut sim = Simulation::new(2, 2, image).unwrap();
    assert!(sim.is_blocked(&Position::new(0, 0)));
    sim.evolve(ConstantSolver { cell: sample_cell() });
    assert_eq!(*sim.get(&Position::new(0, 0)), Cell::new());
    assert_eq!(*sim.get(&Position::new(1, 0)), sample_cell());
    assert_eq!(*sim.get(&Position::new(0, 1)), sample_cell());
    assert_eq!(*sim.get(&Position::new(1, 1)), sample_cell());
}

#[test]
fn evolve_with_identity_solver_preserves_state() {
    let mut sim = Simulation::new(2, 2, white_image(2, 2)).unwrap();
    sim.evolve(ConstantSolver { cell: sample_cell() });
    sim.evolve(IdentitySolver {});
    for y in 0..2 {
        for x in 0..2 {
            assert_eq!(*sim.get(&Position::new(x, y)), sample_cell());
        }
    }
}

#[test]
fn later_step_overwrites_earlier_state() {
    let mut sim = Simulation::new(2, 2, white_image(2, 2)).unwrap();
    let second = Cell { velocity: (-2, 8), pressure: 11, temperature: 77 };
    sim.evolve(ConstantSolver { cell: sample_cell() });
    sim.evolve(ConstantSolver { cell: second });
    for y in 0..2 {
        for x in 0..2 {
            assert_eq!(*sim.get(&Position::new(x, y)), second);
        }
    }
}

#[test]
fn construction_rejects_non_positive_dimensions() {
    assert!(matches!(Simulation::new(0, 2, white_image(2, 2)), Err(SimError::InvalidDimensions)));
    assert!(matches!(Simulation::new(2, 0, white_image(2, 2)), Err(SimError::InvalidDimensions)));
    assert!(matches!(Simulation::new(-1, 2, white_image(2, 2)), Err(SimError::InvalidDimensions)));
}

#[test]
fn construction_rejects_short_image_buffer() {
    assert!(matches!(Simulation::new(2, 2, vec![255u8; 15]), Err(SimError::MaskSizeMismatch)));
    assert!(matches!(Simulation::new(2, 2, Vec::new()), Err(SimError::MaskSizeMismatch)));
    // exactly 4 * W * H bytes are enough
    assert!(Simulation::new(2, 2, white_image(2, 2)).is_ok());
}

#[test]
fn observability_counts() {
    let mut image = white_image(3, 2);
    image[0] = 0; // pixel (0, 0)
    image[4 * 4] = 0; // pixel (1, 1)
    let sim = Simulation::new(3, 2, image).unwrap();
    assert_eq!(sim.total_cells(), 6);
    assert_eq!(sim.blocked_count(), 2);
    let open = Simulation::new(3, 2, white_image(3, 2)).unwrap();
    assert_eq!(open.blocked_count(), 0);
}

#[test]
fn blocked_mask_contains_only_zero_red_pixels() {
    let mut image = white_image(2, 2);
    image[4] = 0; // pixel (1, 0): red channel
    image[9] = 0; // pixel (0, 1): green channel only, stays open
    let mask = BlockedMask::new(2, 2, &image).unwrap();
    assert!(!mask.contains(&Position::new(0, 0)));
    assert!(mask.contains(&Position::new(1, 0)));
    assert!(!mask.contains(&Position::new(0, 1)));
    assert!(!mask.contains(&Position::new(1, 1)));
    assert!(!mask.contains(&Position::new(2, 0)));
    assert_eq!(mask.len(), 1);
}

#[test]
fn blocked_mask_rejects_bad_inputs() {
    assert!(matches!(BlockedMask::new(0, 2, &white_image(2, 2)), Err(SimError::InvalidDimensions)));
    assert!(matches!(BlockedMask::new(2, 2, &vec![0u8; 3]), Err(SimError::MaskSizeMismatch)));
}

#[test]
fn render_rgba_paints_blocked_black_and_open_white() {
    let mut image = white_image(2, 2);
    image[0] = 0;
    let sim = Simulation::new(2, 2, image).unwrap();
    let rgba = sim.render_rgba();
    assert_eq!(rgba.len(), 16);
    assert_eq!(&rgba[0..4], &[0, 0, 0, 255]);
    assert_eq!(&rgba[4..8], &[255, 255, 255, 255]);
    assert_eq!(&rgba[8..12], &[255, 255, 255, 255]);
    assert_eq!(&rgba[12..16], &[255, 255, 255, 255]);
}
