use jam_services::game::{Game, Mutation, XY};

#[test]
fn empty_board_exports_zeros() {
    let game = Game::empty(3);
    assert_eq!(game.export(), vec![0u8; 9]);
}

#[test]
fn empty_board_of_size_zero() {
    let game = Game::empty(0);
    assert_eq!(game.export(), Vec::<u8>::new());
    assert_eq!(game.next_step(), Vec::<Mutation>::new());
}

#[test]
fn new_then_export_normalizes_bytes() {
    let game = Game::new(2, &[0, 5, 0, 1]);
    assert_eq!(game.export(), vec![0, 0xff, 0, 0xff]);
}

#[test]
fn export_then_new_gives_same_board() {
    let game = Game::new(3, &[1, 0, 0, 0, 9, 0, 0, 0, 255]);
    let bytes = game.export();
    let again = Game::new(3, &bytes);
    assert_eq!(again.export(), bytes);
}

#[test]
fn mutate_applies_in_order() {
    let mut game = Game::new(2, &[0, 1, 0, 1]);
    game.mutate(&[
        Mutation::On(XY(0, 0)),
        Mutation::Off(XY(0, 1)),
        Mutation::Off(XY(1, 1)),
        Mutation::On(XY(1, 1)),
    ]);
    assert_eq!(game.export(), vec![0xff, 0, 0, 0xff]);
}

#[test]
fn mutate_with_no_mutations_keeps_board() {
    let mut game = Game::new(2, &[0, 1, 1, 0]);
    game.mutate(&[]);
    assert_eq!(game.export(), vec![0, 0xff, 0xff, 0]);
}

#[test]
fn count_neighbours_inside_the_board() {
    // Alive: (0,0), (0,1), (2,2).
    let game = Game::new(4, &[1, 1, 0, 0, 0, 0, 0, 0, 0, 0, 1, 0, 0, 0, 0, 0]);
    assert_eq!(game.count_neighbours(XY(1, 1)), 3);
    assert_eq!(game.count_neighbours(XY(2, 3)), 1);
}

#[test]
fn count_neighbours_wraps_at_the_far_edge() {
    // Alive: (0,0), (2,2); the neighbours of (3,3) wrap to row and column 0.
    let game = Game::new(4, &[1, 0, 0, 0, 0, 0, 0, 0, 0, 0, 1, 0, 0, 0, 0, 0]);
    assert_eq!(game.count_neighbours(XY(3, 3)), 2);
}

#[test]
fn count_neighbours_full_board() {
    let game = Game::new(3, &[1; 9]);
    assert_eq!(game.count_neighbours(XY(1, 1)), 8);
    assert_eq!(game.count_neighbours(XY(2, 2)), 8);
}

#[test]
fn count_neighbours_single_cell_sees_itself() {
    let alive = Game::new(1, &[1]);
    assert_eq!(alive.count_neighbours(XY(0, 0)), 8);
    let dead = Game::new(1, &[0]);
    assert_eq!(dead.count_neighbours(XY(0, 0)), 0);
}

#[test]
fn next_step_single_live_cell_dies() {
    let game = Game::new(1, &[1]);
    assert_eq!(game.next_step(), vec![Mutation::Off(XY(0, 0))]);
}

#[test]
fn next_step_single_dead_cell_stays_dead() {
    let game = Game::new(1, &[0]);
    assert_eq!(game.next_step(), Vec::<Mutation>::new());
}

#[test]
fn next_step_then_mutate_gives_next_generation() {
    let mut game = Game::new(1, &[0xff]);
    let mutations = game.next_step();
    game.mutate(&mutations);
    assert_eq!(game.export(), vec![0]);
}

#[test]
fn shifted_board_shifts_neighbour_counts() {
    let g_flat: Vec<u8> = vec![1, 0, 0, 1, 0, 1, 1, 0, 0, 0, 1, 0, 1, 1, 0, 0];
    let n = 4usize;
    let (a, b) = (1usize, 1usize);
    let mut h_flat = vec![0u8; n * n];
    for i in 0..n {
        for j in 0..n {
            h_flat[i * n + j] = g_flat[((i + a) % n) * n + (j + b) % n];
        }
    }
    let g = Game::new(4, &g_flat);
    let h = Game::new(4, &h_flat);
    for x in 1..3 {
        for y in 1..3 {
            assert_eq!(
                h.count_neighbours(XY(x, y)),
                g.count_neighbours(XY((x + a) % n, (y + b) % n))
            );
        }
    }
}
