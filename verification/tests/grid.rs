use game_of_life::Universe;
use game_of_life::step_cell;

/// Read one cell out of the packed bit view.
fn get(u: &Universe, row: u32, col: u32) -> bool {
    let idx = (row * u.width() + col) as usize;
    (u.cells()[idx / 32] >> (idx % 32)) & 1 == 1
}

/// Copy the packed bit view for later comparison.
fn snapshot(u: &Universe) -> Vec<u32> {
    u.cells().to_vec()
}

#[test]
fn rule_table() {
    // live cell: dies under 2, lives on 2 or 3, dies over 3
    assert_eq!(step_cell(true, 0), false);
    assert_eq!(step_cell(true, 1), false);
    assert_eq!(step_cell(true, 2), true);
    assert_eq!(step_cell(true, 3), true);
    assert_eq!(step_cell(true, 4), false);
    assert_eq!(step_cell(true, 5), false);
    assert_eq!(step_cell(true, 6), false);
    assert_eq!(step_cell(true, 7), false);
    assert_eq!(step_cell(true, 8), false);
    // dead cell: born on exactly 3, otherwise stays dead
    assert_eq!(step_cell(false, 0), false);
    assert_eq!(step_cell(false, 1), false);
    assert_eq!(step_cell(false, 2), false);
    assert_eq!(step_cell(false, 3), true);
    assert_eq!(step_cell(false, 4), false);
    assert_eq!(step_cell(false, 5), false);
    assert_eq!(step_cell(false, 6), false);
    assert_eq!(step_cell(false, 7), false);
    assert_eq!(step_cell(false, 8), false);
}

#[test]
fn new_dead_dimensions_and_content() {
    let u = Universe::new_dead(5);
    assert_eq!(u.width(), 5);
    assert_eq!(u.height(), 5);
    for r in 0..5 {
        for c in 0..5 {
            assert!(!get(&u, r, c));
        }
    }
}

#[test]
fn from_bits_seeds_exactly() {
    let mut bits = vec![false; 9];
    bits[1] = true;
    bits[4] = true;
    bits[8] = true;
    let u = Universe::from_bits(3, &bits);
    for r in 0..3 {
        for c in 0..3 {
            assert_eq!(get(&u, r, c), bits[(r * 3 + c) as usize]);
        }
    }
}

#[test]
fn block_is_still_life() {
    // 2x2 block with a full dead margin on a 4x4 grid
    let mut u = Universe::new_dead(4);
    u.toggle_cell(1, 1);
    u.toggle_cell(1, 2);
    u.toggle_cell(2, 1);
    u.toggle_cell(2, 2);
    let before = snapshot(&u);
    let unchanged = u.tick();
    assert_eq!(snapshot(&u), before);
    assert!(unchanged.iter().all(|&f| f));
}

#[test]
fn blinker_oscillates() {
    // horizontal blinker in row 2 of a 5x5 grid
    let mut u = Universe::new_dead(5);
    u.toggle_cell(2, 1);
    u.toggle_cell(2, 2);
    u.toggle_cell(2, 3);
    let start = snapshot(&u);
    u.tick();
    // after one step it stands vertical: different from the start
    assert_ne!(snapshot(&u), start);
    assert!(!get(&u, 2, 1));
    assert!(get(&u, 1, 2));
    assert!(get(&u, 2, 2));
    assert!(get(&u, 3, 2));
    u.tick();
    // after two steps it is back, bit for bit
    assert_eq!(snapshot(&u), start);
}

#[test]
fn corner_does_not_wrap() {
    // live cells only on the far edges: a wrapping grid would count them
    // as neighbours of (0,0) and give birth there; the bounded grid not
    let mut u = Universe::new_dead(4);
    u.toggle_cell(0, 3);
    u.toggle_cell(3, 0);
    u.toggle_cell(3, 3);
    u.tick();
    assert!(!get(&u, 0, 0));
}

#[test]
fn toggle_twice_restores() {
    let mut u = Universe::new_dead(3);
    u.toggle_cell(1, 2);
    let once = snapshot(&u);
    u.toggle_cell(1, 2);
    let twice = snapshot(&u);
    assert!(once != twice);
    let fresh = snapshot(&Universe::new_dead(3));
    assert_eq!(twice, fresh);
}

#[test]
fn tick_known_grid_is_deterministic() {
    // a glider on a 4x4 bounded grid, next generation computed by hand
    let mut u = Universe::new_dead(4);
    for &(r, c) in &[(0, 1), (1, 2), (2, 0), (2, 1), (2, 2)] {
        u.toggle_cell(r, c);
    }
    let unchanged = u.tick();
    let expected = [
        (1u32, 0u32),
        (1, 2),
        (2, 1),
        (2, 2),
        (3, 1),
    ];
    for r in 0..4 {
        for c in 0..4 {
            let want = expected.contains(&(r, c));
            assert_eq!(get(&u, r, c), want, "cell ({}, {})", r, c);
        }
    }
    // exactly the cells that moved are flagged as changed
    for (i, &f) in unchanged.iter().enumerate() {
        let changed = [1usize, 4, 8, 13].contains(&i);
        assert_eq!(f, !changed, "flag {}", i);
    }
    // the same seed steps to the same grid again
    let mut v = Universe::new_dead(4);
    for &(r, c) in &[(0, 1), (1, 2), (2, 0), (2, 1), (2, 2)] {
        v.toggle_cell(r, c);
    }
    v.tick();
    assert_eq!(snapshot(&u), snapshot(&v));
}

#[test]
fn clear_kills_every_cell() {
    let mut u = Universe::new_dead(4);
    u.toggle_cell(0, 0);
    u.toggle_cell(3, 3);
    u.clear();
    assert_eq!(u.width(), 4);
    assert_eq!(u.height(), 4);
    for r in 0..4 {
        for c in 0..4 {
            assert!(!get(&u, r, c));
        }
    }
}

#[test]
fn cells_packs_bits_into_words() {
    // 36 cells need two 32-bit words
    let mut u = Universe::new_dead(6);
    assert_eq!(u.cells().len(), 2);
    u.toggle_cell(0, 0); // bit 0 of word 0
    u.toggle_cell(5, 5); // bit 35: bit 3 of word 1
    assert_eq!(u.cells()[0], 1);
    assert_eq!(u.cells()[1], 1 << 3);
}

#[test]
fn empty_grid_tick_is_a_noop() {
    let mut u = Universe::new_dead(0);
    assert_eq!(u.width(), 0);
    assert_eq!(u.height(), 0);
    let unchanged = u.tick();
    assert_eq!(unchanged.len(), 0);
    assert_eq!(u.cells().len(), 0);
}

#[test]
fn render_draws_glyphs_and_breaks() {
    let mut u = Universe::new_dead(2);
    u.toggle_cell(0, 0);
    // a glyph per cell, a break after each cell whose index is a multiple
    // of the width
    assert_eq!(u.render(), "\u{25fc}\n\u{25fb}\u{25fb}\n\u{25fb}");
}
