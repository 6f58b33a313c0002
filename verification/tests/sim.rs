use stotris::sim::{
    Cell, Config, ConfigError, Offset, Phase, Shape, Sim, SpawnOutcome, Spin, TickOutcome,
};

fn single_cell_shape() -> Shape {
    Shape { cells: vec![Offset { dx: 0, dy: 0 }] }
}

fn horizontal_domino() -> Shape {
    Shape { cells: vec![Offset { dx: 0, dy: 0 }, Offset { dx: 1, dy: 0 }] }
}

fn sim_4x4_single() -> Sim {
    let config = Config::new(4, 4, 150, vec![single_cell_shape()]).unwrap();
    Sim::new(config)
}

#[test]
fn config_rejects_bad_grid_dimensions() {
    assert_eq!(
        Config::new(0, 4, 150, vec![single_cell_shape()]).unwrap_err(),
        ConfigError::GridDimensions
    );
    assert_eq!(
        Config::new(4, -1, 150, vec![single_cell_shape()]).unwrap_err(),
        ConfigError::GridDimensions
    );
}

#[test]
fn config_rejects_zero_tick_period() {
    assert_eq!(
        Config::new(4, 4, 0, vec![single_cell_shape()]).unwrap_err(),
        ConfigError::TickPeriod
    );
}

#[test]
fn config_rejects_empty_shapes() {
    assert_eq!(Config::new(4, 4, 150, vec![]).unwrap_err(), ConfigError::Shapes);
    assert_eq!(
        Config::new(4, 4, 150, vec![Shape { cells: vec![] }]).unwrap_err(),
        ConfigError::Shapes
    );
}

#[test]
fn config_accepts_valid_input() {
    let c = Config::new(4, 4, 150, vec![single_cell_shape()]).unwrap();
    assert_eq!(c.grid_width, 4);
    assert_eq!(c.grid_height, 4);
    assert_eq!(c.tick_period_ms, 150);
    assert_eq!(c.shapes.len(), 1);
}

#[test]
fn new_sim_is_empty() {
    let sim = sim_4x4_single();
    assert_eq!(sim.phase(), Phase::Empty);
    assert_eq!(sim.active_piece(), None);
    assert_eq!(sim.width(), 4);
    assert_eq!(sim.height(), 4);
    assert_eq!(sim.shape_count(), 1);
    for y in 0..4 {
        for x in 0..4 {
            assert_eq!(sim.cell(x, y), Cell::Empty);
        }
    }
    assert!(sim.piece_cells().is_empty());
}

#[test]
fn spawn_places_piece_at_top_center() {
    let mut sim = sim_4x4_single();
    assert_eq!(sim.spawn(0), SpawnOutcome::Spawned);
    assert_eq!(sim.phase(), Phase::Falling);
    let p = sim.active_piece().unwrap();
    assert_eq!((p.anchor_x, p.anchor_y), (2, 3));
    assert_eq!(p.orientation, 0);
    assert_eq!(sim.piece_cells(), vec![(2, 3)]);
}

// Scenario: 4x4 grid, single 1-cell shape, spawn at (2,3); three gravity
// ticks over an empty stack bring the piece to (2,0); the fourth tick lands
// it, the stack becomes exactly {(2,0)}, and a new piece spawns at (2,3).
#[test]
fn single_cell_falls_lands_and_respawns() {
    let mut sim = sim_4x4_single();
    assert_eq!(sim.spawn(0), SpawnOutcome::Spawned);
    for expected_y in [2, 1, 0] {
        assert_eq!(sim.tick(0), TickOutcome::Moved);
        let p = sim.active_piece().unwrap();
        assert_eq!((p.anchor_x, p.anchor_y), (2, expected_y));
    }
    assert_eq!(sim.tick(0), TickOutcome::Landed);
    for y in 0..4 {
        for x in 0..4 {
            let expected = if (x, y) == (2, 0) { Cell::Occupied(0) } else { Cell::Empty };
            assert_eq!(sim.cell(x, y), expected);
        }
    }
    let p = sim.active_piece().unwrap();
    assert_eq!((p.anchor_x, p.anchor_y), (2, 3));
    assert_eq!(sim.phase(), Phase::Falling);
}

// Scenario: the stack already occupies (2,0); a piece spawned at (2,3) falls
// to (2,1) in two gravity steps and lands on the third, since moving to
// (2,0) is illegal; its cells are untouched by the failed step.
#[test]
fn piece_lands_on_existing_stack() {
    let mut sim = sim_4x4_single();
    // Drop one piece to put (2,0) into the stack.
    assert_eq!(sim.spawn(0), SpawnOutcome::Spawned);
    for _ in 0..3 {
        sim.apply_gravity();
    }
    assert_eq!(sim.phase(), Phase::Falling);
    sim.apply_gravity();
    assert_eq!(sim.phase(), Phase::Landed);
    sim.commit_landing();
    assert_eq!(sim.phase(), Phase::Empty);
    assert_eq!(sim.cell(2, 0), Cell::Occupied(0));

    // The piece under test.
    assert_eq!(sim.spawn(0), SpawnOutcome::Spawned);
    sim.apply_gravity();
    sim.apply_gravity();
    let p = sim.active_piece().unwrap();
    assert_eq!((p.anchor_x, p.anchor_y), (2, 1));
    assert_eq!(sim.phase(), Phase::Falling);
    sim.apply_gravity();
    assert_eq!(sim.phase(), Phase::Landed);
    let p = sim.active_piece().unwrap();
    assert_eq!((p.anchor_x, p.anchor_y), (2, 1));
}

// Scenario: a two-cell horizontal shape sits at the grid's top edge; the
// quarter turn that would move its second cell above the grid is rejected
// and the cell set is identical to before the attempt.
#[test]
fn rotation_out_of_bounds_is_rejected() {
    let config = Config::new(4, 4, 150, vec![horizontal_domino()]).unwrap();
    let mut sim = Sim::new(config);
    assert_eq!(sim.spawn(0), SpawnOutcome::Spawned);
    let before_piece = sim.active_piece().unwrap();
    let before_cells = sim.piece_cells();
    assert_eq!(before_cells, vec![(2, 3), (3, 3)]);
    // A left turn sends offset (1,0) to (0,1): cell (2,4) is outside.
    sim.apply_rotation(Spin::Left);
    assert_eq!(sim.active_piece().unwrap(), before_piece);
    assert_eq!(sim.piece_cells(), before_cells);
    assert_eq!(sim.phase(), Phase::Falling);
}

#[test]
fn legal_rotation_turns_the_piece() {
    let config = Config::new(4, 4, 150, vec![horizontal_domino()]).unwrap();
    let mut sim = Sim::new(config);
    assert_eq!(sim.spawn(0), SpawnOutcome::Spawned);
    // A right turn sends offset (1,0) to (0,-1): cells (2,3) and (2,2).
    sim.apply_rotation(Spin::Right);
    let p = sim.active_piece().unwrap();
    assert_eq!(p.orientation, 1);
    assert_eq!(sim.piece_cells(), vec![(2, 3), (2, 2)]);
    // A left turn undoes it.
    sim.apply_rotation(Spin::Left);
    assert_eq!(sim.active_piece().unwrap().orientation, 0);
    assert_eq!(sim.piece_cells(), vec![(2, 3), (3, 3)]);
}

// Scenario: with the spawn cell already occupied the spawn is refused, no
// piece is created, and the machine stays empty — the top-out signal.
#[test]
fn blocked_spawn_signals_top_out() {
    let config = Config::new(1, 1, 150, vec![single_cell_shape()]).unwrap();
    let mut sim = Sim::new(config);
    assert_eq!(sim.spawn(0), SpawnOutcome::Spawned);
    // The only cell is (0,0); the piece cannot move down, so this tick
    // lands it, fills the grid, and finds the respawn blocked.
    assert_eq!(sim.tick(0), TickOutcome::SpawnBlocked);
    assert_eq!(sim.phase(), Phase::Empty);
    assert_eq!(sim.active_piece(), None);
    assert_eq!(sim.cell(0, 0), Cell::Occupied(0));
    // Retrying next tick reports the same terminal condition.
    assert_eq!(sim.tick(0), TickOutcome::SpawnBlocked);
    assert_eq!(sim.spawn(0), SpawnOutcome::Blocked);
}

#[test]
fn tick_spawns_into_an_empty_machine() {
    let mut sim = sim_4x4_single();
    assert_eq!(sim.tick(0), TickOutcome::Spawned);
    assert_eq!(sim.phase(), Phase::Falling);
    let p = sim.active_piece().unwrap();
    assert_eq!((p.anchor_x, p.anchor_y), (2, 3));
}

// Rotation is judged by the same occupancy test as gravity: a turn whose
// target cell is taken by the stack is rejected even though it is in bounds.
#[test]
fn rotation_blocked_by_stack_is_rejected() {
    let config = Config::new(4, 4, 150, vec![horizontal_domino()]).unwrap();
    let mut sim = Sim::new(config);
    // Stack three dominoes on top of each other: rows 0, 1 and 2 get cells
    // at columns 2 and 3.
    for _ in 0..3 {
        assert_eq!(sim.spawn(0), SpawnOutcome::Spawned);
        while sim.phase() == Phase::Falling {
            sim.apply_gravity();
        }
        sim.commit_landing();
    }
    assert_eq!(sim.cell(2, 2), Cell::Occupied(0));
    // The next piece spawns with cells (2,3),(3,3); a right turn aims its
    // second cell at the occupied (2,2) and is rejected.
    assert_eq!(sim.spawn(0), SpawnOutcome::Spawned);
    let before = sim.piece_cells();
    sim.apply_rotation(Spin::Right);
    assert_eq!(sim.active_piece().unwrap().orientation, 0);
    assert_eq!(sim.piece_cells(), before);
}

// Every stack cell and every piece cell stays strictly inside the grid
// through a full session driven only by ticks and rotations.
#[test]
fn occupancy_stays_in_bounds() {
    let config = Config::new(3, 5, 150, vec![horizontal_domino()]).unwrap();
    let mut sim = Sim::new(config);
    assert_eq!(sim.spawn(0), SpawnOutcome::Spawned);
    let mut steps = 0;
    loop {
        for (x, y) in sim.piece_cells() {
            assert!(0 <= x && x < 3 && 0 <= y && y < 5);
        }
        if sim.tick(0) == TickOutcome::SpawnBlocked {
            break;
        }
        if sim.phase() == Phase::Falling && steps % 3 == 0 {
            sim.apply_rotation(Spin::Right);
        }
        steps += 1;
        assert!(steps < 1000, "session should top out");
    }
    assert_eq!(sim.phase(), Phase::Empty);
}

// While falling, gravity never moves the piece upward.
#[test]
fn gravity_row_is_non_increasing() {
    let mut sim = sim_4x4_single();
    assert_eq!(sim.spawn(0), SpawnOutcome::Spawned);
    let mut last_y = sim.active_piece().unwrap().anchor_y;
    while sim.phase() == Phase::Falling {
        sim.apply_gravity();
        let y = sim.active_piece().unwrap().anchor_y;
        assert!(y <= last_y);
        last_y = y;
    }
}

// A landing commit is atomic: the new stack is exactly the old stack plus
// the piece's cells, and the piece is cleared.
#[test]
fn landing_commit_is_atomic() {
    let config = Config::new(4, 4, 150, vec![horizontal_domino()]).unwrap();
    let mut sim = Sim::new(config);
    assert_eq!(sim.spawn(0), SpawnOutcome::Spawned);
    while sim.phase() == Phase::Falling {
        sim.apply_gravity();
    }
    assert_eq!(sim.phase(), Phase::Landed);
    let piece = sim.active_piece().unwrap();
    let piece_cells = sim.piece_cells();
    let mut before = Vec::new();
    for y in 0..4 {
        for x in 0..4 {
            before.push(sim.cell(x, y));
        }
    }
    sim.commit_landing();
    assert_eq!(sim.phase(), Phase::Empty);
    assert_eq!(sim.active_piece(), None);
    for y in 0..4 {
        for x in 0..4 {
            let expected = if piece_cells.contains(&(x, y)) {
                Cell::Occupied(piece.shape_index)
            } else {
                before[(y * 4 + x) as usize]
            };
            assert_eq!(sim.cell(x, y), expected);
        }
    }
}
