//! Piece simulation state machine.
//!
//! The machine owns a discrete grid, the settled stack of occupied cells and
//! at most one active falling piece. Rows are counted from the bottom: row 0
//! is the floor, gravity decreases the row. On each tick it applies gravity;
//! on input it applies rotation; a piece that can no longer move down lands
//! and its cells are committed to the stack, after which a replacement is
//! spawned at the top-center of the grid. Every movement operation — gravity
//! and rotation alike — is judged by one shared legality test: each candidate
//! cell must lie inside the grid and must not coincide with a stack cell.

use vstd::prelude::*;

verus! {

/// Largest accepted grid width or height, in cells.
pub const MAX_DIM: i32 = 100_000;

/// Largest accepted magnitude of a shape offset component.
pub const MAX_OFFSET: i32 = 100_000;

/// Anchors within this bound never overflow when an offset is added.
pub const ANCHOR_LIMIT: i32 = MAX_DIM + MAX_OFFSET + 2;

/// One cell of a shape, relative to the piece's anchor.
#[derive(Clone, Copy, PartialEq, Eq, Structural, Debug)]
pub struct Offset {
    pub dx: i32,
    pub dy: i32,
}

/// A shape: one or more grid-relative cell offsets.
#[derive(Clone, Debug)]
pub struct Shape {
    pub cells: Vec<Offset>,
}

/// One grid cell: empty, or occupied by a landed piece of the given shape
/// index (the kind used for rendering).
#[derive(Clone, Copy, PartialEq, Eq, Structural, Debug)]
pub enum Cell {
    Empty,
    Occupied(usize),
}

/// The state of the machine: no active piece, a piece still able to fall, or
/// a piece blocked below and awaiting commitment to the stack.
#[derive(Clone, Copy, PartialEq, Eq, Structural, Debug)]
pub enum Phase {
    Empty,
    Falling,
    Landed,
}

/// The active falling piece: a shape, an anchor cell and an orientation
/// counted in clockwise quarter turns.
#[derive(Clone, Copy, PartialEq, Eq, Structural, Debug)]
pub struct Piece {
    pub shape_index: usize,
    pub anchor_x: i32,
    pub anchor_y: i32,
    pub orientation: u8,
}

/// A rotation input: one quarter turn to the left or to the right.
#[derive(Clone, Copy, PartialEq, Eq, Structural, Debug)]
pub enum Spin {
    Left,
    Right,
}

/// Whether a spawn request produced a piece or found its cells occupied.
#[derive(Clone, Copy, PartialEq, Eq, Structural, Debug)]
pub enum SpawnOutcome {
    Spawned,
    Blocked,
}

/// What one tick did: spawned a piece into an empty machine, moved the piece
/// down, landed the piece (committing it and spawning a replacement), or
/// found the spawn cells occupied — the top-out signal.
#[derive(Clone, Copy, PartialEq, Eq, Structural, Debug)]
pub enum TickOutcome {
    Spawned,
    Moved,
    Landed,
    SpawnBlocked,
}

/// Why a configuration was rejected at startup.
#[derive(Clone, Copy, PartialEq, Eq, Structural, Debug)]
pub enum ConfigError {
    GridDimensions,
    TickPeriod,
    Shapes,
}

/// Static configuration: grid size, tick period and the supported shapes.
#[derive(Clone, Debug)]
pub struct Config {
    pub grid_width: i32,
    pub grid_height: i32,
    pub tick_period_ms: u64,
    pub shapes: Vec<Shape>,
}

/// Both components of the offset are within the accepted magnitude.
pub open spec fn offset_in_range(o: Offset) -> bool {
    -MAX_OFFSET <= o.dx <= MAX_OFFSET && -MAX_OFFSET <= o.dy <= MAX_OFFSET
}

/// A shape has at least one cell, all with in-range offsets.
pub open spec fn shape_ok(cells: Seq<Offset>) -> bool {
    cells.len() >= 1 && forall|i: int| 0 <= i < cells.len() ==> offset_in_range(#[trigger] cells[i])
}

/// The offset rotated by the given number of clockwise quarter turns, as a
/// pair of mathematical integers (x component, y component).
pub open spec fn spec_rot(o: Offset, orientation: int) -> (int, int) {
    if orientation == 0 {
        (o.dx as int, o.dy as int)
    } else if orientation == 1 {
        (o.dy as int, -(o.dx as int))
    } else if orientation == 2 {
        (-(o.dx as int), -(o.dy as int))
    } else {
        (-(o.dy as int), o.dx as int)
    }
}

/// The anchor is far enough from the i32 limits that adding any in-range
/// offset cannot overflow.
pub open spec fn anchor_in_range(p: Piece) -> bool {
    -ANCHOR_LIMIT <= p.anchor_x <= ANCHOR_LIMIT && -ANCHOR_LIMIT <= p.anchor_y <= ANCHOR_LIMIT
}

/// The piece one cell lower, all else unchanged.
pub open spec fn moved_down(p: Piece) -> Piece {
    Piece { anchor_y: (p.anchor_y - 1) as i32, ..p }
}

/// The piece turned by one quarter turn in the given direction, all else
/// unchanged. Orientation counts clockwise quarter turns, so a right spin
/// adds one and a left spin adds three, modulo four.
pub open spec fn turned(p: Piece, dir: Spin) -> Piece {
    match dir {
        Spin::Right => Piece { orientation: (((p.orientation as int) + 1) % 4) as u8, ..p },
        Spin::Left => Piece { orientation: (((p.orientation as int) + 3) % 4) as u8, ..p },
    }
}

impl Config {
    /// A configuration the simulation accepts: positive in-range dimensions,
    /// a positive tick period, and a non-empty set of non-empty shapes.
    pub open spec fn wf(self) -> bool {
        &&& 0 < self.grid_width <= MAX_DIM
        &&& 0 < self.grid_height <= MAX_DIM
        &&& self.tick_period_ms > 0
        &&& self.shapes@.len() >= 1
        &&& forall|i: int|
            0 <= i < self.shapes@.len() ==> shape_ok(#[trigger] self.shapes@[i].cells@)
    }

    /// Validate a configuration. Rejects non-positive grid dimensions, a
    /// zero tick period, and an empty shape set or a shape with no cells —
    /// in that order of precedence — and accepts everything else.
    #[verifier::loop_isolation(false)]
    pub fn new(grid_width: i32, grid_height: i32, tick_period_ms: u64, shapes: Vec<Shape>) -> (r:
        Result<Config, ConfigError>)
        requires
            grid_width <= MAX_DIM,
            grid_height <= MAX_DIM,
            forall|i: int, j: int|
                0 <= i < shapes@.len() && 0 <= j < shapes@[i].cells@.len() ==> offset_in_range(
                    #[trigger] shapes@[i].cells@[j],
                ),
        ensures
            r is Err <==> (grid_width <= 0 || grid_height <= 0 || tick_period_ms == 0
                || shapes@.len() == 0 || exists|i: int|
                0 <= i < shapes@.len() && (#[trigger] shapes@[i].cells@).len() == 0),
            grid_width <= 0 || grid_height <= 0 ==> r == Result::<Config, ConfigError>::Err(
                ConfigError::GridDimensions,
            ),
            grid_width > 0 && grid_height > 0 && tick_period_ms == 0 ==> r == Result::<
                Config,
                ConfigError,
            >::Err(ConfigError::TickPeriod),
            grid_width > 0 && grid_height > 0 && tick_period_ms > 0 && r is Err ==> r == Result::<
                Config,
                ConfigError,
            >::Err(ConfigError::Shapes),
            r matches Ok(c) ==> c.wf() && c.grid_width == grid_width && c.grid_height == grid_height
                && c.tick_period_ms == tick_period_ms && c.shapes == shapes,
    {
        if grid_width <= 0 || grid_height <= 0 {
            return Err(ConfigError::GridDimensions);
        }
        if tick_period_ms == 0 {
            return Err(ConfigError::TickPeriod);
        }
        if shapes.len() == 0 {
            return Err(ConfigError::Shapes);
        }
        let mut i: usize = 0;
        while i < shapes.len()
            invariant
                i <= shapes@.len(),
                forall|k: int| 0 <= k < i ==> (#[trigger] shapes@[k].cells@).len() >= 1,
            decreases shapes@.len() - i,
        {
            if shapes[i].cells.len() == 0 {
                return Err(ConfigError::Shapes);
            }
            i += 1;
        }
        Ok(Config { grid_width, grid_height, tick_period_ms, shapes })
    }
}

/// The piece simulation state machine: the grid dimensions, the supported
/// shapes, the settled stack (indexed `stack[row][column]`, row 0 at the
/// bottom), the phase and the active piece.
pub struct Sim {
    width: i32,
    height: i32,
    shapes: Vec<Shape>,
    stack: Vec<Vec<Cell>>,
    phase: Phase,
    piece: Option<Piece>,
}

impl Sim {
    /// Grid width in cells.
    pub closed spec fn spec_width(self) -> int {
        self.width as int
    }

    /// Grid height in cells.
    pub closed spec fn spec_height(self) -> int {
        self.height as int
    }

    /// How many shapes the machine supports.
    pub closed spec fn num_shapes(self) -> int {
        self.shapes@.len() as int
    }

    /// The offsets of the shape with the given index.
    pub closed spec fn shape_cells(self, i: int) -> Seq<Offset> {
        self.shapes@[i].cells@
    }

    /// The current phase.
    pub closed spec fn spec_phase(self) -> Phase {
        self.phase
    }

    /// The current active piece, if any.
    pub closed spec fn spec_piece(self) -> Option<Piece> {
        self.piece
    }

    /// The stack cell at the given coordinates.
    pub closed spec fn cell_at(self, x: int, y: int) -> Cell {
        self.stack@[y]@[x]
    }

    /// The coordinates lie strictly within the grid.
    pub open spec fn in_bounds(self, x: int, y: int) -> bool {
        0 <= x < self.spec_width() && 0 <= y < self.spec_height()
    }

    /// The stack occupies the given cell.
    pub open spec fn occupied(self, x: int, y: int) -> bool {
        self.cell_at(x, y) is Occupied
    }

    /// The grid dimensions are positive and within the accepted range.
    pub open spec fn dims_ok(self) -> bool {
        0 < self.spec_width() <= MAX_DIM && 0 < self.spec_height() <= MAX_DIM
    }

    /// The stack holds exactly height rows of exactly width cells.
    pub closed spec fn stack_shape_ok(self) -> bool {
        self.stack@.len() == self.spec_height() && forall|y: int|
            0 <= y < self.stack@.len() ==> (#[trigger] self.stack@[y])@.len() == self.spec_width()
    }

    /// The shape set is non-empty and every shape is well-formed.
    pub open spec fn shapes_ok(self) -> bool {
        self.num_shapes() >= 1 && forall|i: int|
            0 <= i < self.num_shapes() ==> shape_ok(#[trigger] self.shape_cells(i))
    }

    /// The grid parts of the machine are well-formed.
    pub open spec fn grid_wf(self) -> bool {
        self.dims_ok() && self.stack_shape_ok() && self.shapes_ok()
    }

    /// The dimensions, shapes and stack of the two machines agree (the frame
    /// that every piece operation leaves untouched).
    pub closed spec fn same_config(self, other: Sim) -> bool {
        self.width == other.width && self.height == other.height && self.shapes == other.shapes
    }

    /// Every stack cell of the two machines agrees.
    pub open spec fn same_stack(self, other: Sim) -> bool {
        forall|x: int, y: int| other.in_bounds(x, y) ==> self.cell_at(x, y) == other.cell_at(x, y)
    }

    /// The piece refers to a real shape and a real orientation.
    pub open spec fn piece_wf(self, p: Piece) -> bool {
        p.shape_index < self.num_shapes() && p.orientation < 4
    }

    /// How many cells the piece's shape has.
    pub open spec fn piece_len(self, p: Piece) -> int {
        self.shape_cells(p.shape_index as int).len() as int
    }

    /// The x coordinate of the piece's cell number `i`.
    pub open spec fn piece_cell_x(self, p: Piece, i: int) -> int {
        p.anchor_x + spec_rot(self.shape_cells(p.shape_index as int)[i], p.orientation as int).0
    }

    /// The y coordinate of the piece's cell number `i`.
    pub open spec fn piece_cell_y(self, p: Piece, i: int) -> int {
        p.anchor_y + spec_rot(self.shape_cells(p.shape_index as int)[i], p.orientation as int).1
    }

    /// Every cell of the piece lies strictly within the grid.
    pub open spec fn piece_in_bounds(self, p: Piece) -> bool {
        forall|i: int|
            0 <= i < self.piece_len(p) ==> self.in_bounds(
                #[trigger] self.piece_cell_x(p, i),
                self.piece_cell_y(p, i),
            )
    }

    /// No cell of the piece coincides with an occupied stack cell.
    pub open spec fn piece_clear_of_stack(self, p: Piece) -> bool {
        forall|i: int|
            0 <= i < self.piece_len(p) ==> !self.occupied(
                #[trigger] self.piece_cell_x(p, i),
                self.piece_cell_y(p, i),
            )
    }

    /// The shared legality test: the piece fits if every one of its cells is
    /// inside the grid and free of the stack.
    pub open spec fn spec_fits(self, p: Piece) -> bool {
        self.piece_in_bounds(p) && self.piece_clear_of_stack(p)
    }

    /// One of the first `n` cells of the piece lies at the given coordinates.
    pub open spec fn covers_prefix(self, p: Piece, n: int, x: int, y: int) -> bool {
        exists|i: int|
            0 <= i < n && #[trigger] self.piece_cell_x(p, i) == x && self.piece_cell_y(p, i) == y
    }

    /// The piece has a cell at the given coordinates.
    pub open spec fn covers(self, p: Piece, x: int, y: int) -> bool {
        self.covers_prefix(p, self.piece_len(p), x, y)
    }

    /// A well-formed machine: well-formed grid, a piece exactly when the
    /// phase is not `Empty`, and that piece valid, fully inside the grid and
    /// clear of the stack.
    pub open spec fn wf(self) -> bool {
        &&& self.grid_wf()
        &&& (self.spec_phase() is Empty <==> self.spec_piece() is None)
        &&& (self.spec_piece() matches Some(p) ==> self.piece_wf(p) && self.piece_in_bounds(p)
            && self.piece_clear_of_stack(p))
    }

    /// The two machines carry the very same grid: dimensions, shapes and
    /// stack.
    pub closed spec fn same_grid(self, other: Sim) -> bool {
        self.width == other.width && self.height == other.height && self.shapes == other.shapes
            && self.stack == other.stack
    }

    /// Grid well-formedness depends only on the grid itself.
    proof fn lemma_same_grid_wf(self, other: Sim)
        requires
            self.same_grid(other),
        ensures
            self.grid_wf() == other.grid_wf(),
    {
        if other.shapes_ok() {
            assert forall|i: int| 0 <= i < self.num_shapes() implies shape_ok(
                #[trigger] self.shape_cells(i),
            ) by {
                assert(shape_ok(other.shape_cells(i)));
            }
        }
        if self.shapes_ok() {
            assert forall|i: int| 0 <= i < other.num_shapes() implies shape_ok(
                #[trigger] other.shape_cells(i),
            ) by {
                assert(shape_ok(self.shape_cells(i)));
            }
        }
        if other.stack_shape_ok() {
            assert forall|y: int| 0 <= y < self.stack@.len() implies (
            #[trigger] self.stack@[y])@.len() == self.spec_width() by {
                assert(other.stack@[y]@.len() == other.spec_width());
            }
        }
        if self.stack_shape_ok() {
            assert forall|y: int| 0 <= y < other.stack@.len() implies (
            #[trigger] other.stack@[y])@.len() == other.spec_width() by {
                assert(self.stack@[y]@.len() == self.spec_width());
            }
        }
    }

    /// Every judgment about a piece depends only on the grid, never on the
    /// phase or on which piece is active.
    proof fn lemma_same_grid_piece(self, other: Sim, p: Piece)
        requires
            self.same_grid(other),
        ensures
            self.piece_wf(p) == other.piece_wf(p),
            self.piece_len(p) == other.piece_len(p),
            self.piece_in_bounds(p) == other.piece_in_bounds(p),
            self.piece_clear_of_stack(p) == other.piece_clear_of_stack(p),
            self.spec_fits(p) == other.spec_fits(p),
    {
        assert forall|i: int| 0 <= i < self.piece_len(p) implies #[trigger] self.piece_cell_x(p, i)
            == other.piece_cell_x(p, i) && #[trigger] self.piece_cell_y(p, i)
            == other.piece_cell_y(p, i) by {}
        assert(self.piece_in_bounds(p) == other.piece_in_bounds(p)) by {
            if self.piece_in_bounds(p) {
                assert forall|i: int| 0 <= i < other.piece_len(p) implies other.in_bounds(
                    #[trigger] other.piece_cell_x(p, i),
                    other.piece_cell_y(p, i),
                ) by {
                    assert(self.in_bounds(self.piece_cell_x(p, i), self.piece_cell_y(p, i)));
                }
            }
            if other.piece_in_bounds(p) {
                assert forall|i: int| 0 <= i < self.piece_len(p) implies self.in_bounds(
                    #[trigger] self.piece_cell_x(p, i),
                    self.piece_cell_y(p, i),
                ) by {
                    assert(other.in_bounds(other.piece_cell_x(p, i), other.piece_cell_y(p, i)));
                }
            }
        }
        assert(self.piece_clear_of_stack(p) == other.piece_clear_of_stack(p)) by {
            if self.piece_clear_of_stack(p) {
                assert forall|i: int| 0 <= i < other.piece_len(p) implies !other.occupied(
                    #[trigger] other.piece_cell_x(p, i),
                    other.piece_cell_y(p, i),
                ) by {
                    assert(!self.occupied(self.piece_cell_x(p, i), self.piece_cell_y(p, i)));
                }
            }
            if other.piece_clear_of_stack(p) {
                assert forall|i: int| 0 <= i < self.piece_len(p) implies !self.occupied(
                    #[trigger] self.piece_cell_x(p, i),
                    self.piece_cell_y(p, i),
                ) by {
                    assert(!other.occupied(other.piece_cell_x(p, i), other.piece_cell_y(p, i)));
                }
            }
        }
    }

    /// A well-formed piece that sits fully inside the grid has its anchor
    /// well within the range where adding an offset cannot overflow.
    proof fn lemma_anchor_bounds(self, p: Piece)
        requires
            self.dims_ok(),
            self.shapes_ok(),
            self.piece_wf(p),
            self.piece_in_bounds(p),
        ensures
            -MAX_OFFSET <= p.anchor_x <= MAX_DIM + MAX_OFFSET,
            -MAX_OFFSET <= p.anchor_y <= MAX_DIM + MAX_OFFSET,
    {
        let cells = self.shape_cells(p.shape_index as int);
        assert(shape_ok(cells));
        assert(offset_in_range(cells[0]));
        assert(self.in_bounds(self.piece_cell_x(p, 0), self.piece_cell_y(p, 0)));
    }

    /// The rotated offset, computed.
    fn rot(o: Offset, orientation: u8) -> (r: (i32, i32))
        requires
            offset_in_range(o),
            orientation < 4,
        ensures
            r.0 == spec_rot(o, orientation as int).0,
            r.1 == spec_rot(o, orientation as int).1,
    {
        match orientation {
            0 => (o.dx, o.dy),
            1 => (o.dy, -o.dx),
            2 => (-o.dx, -o.dy),
            _ => (-o.dy, o.dx),
        }
    }

    /// The shared collision routine, executable: decides whether the piece
    /// fits, that is, whether every one of its cells is inside the grid and
    /// free of the stack.
    #[verifier::loop_isolation(false)]
    pub fn fits(&self, p: &Piece) -> (r: bool)
        requires
            self.grid_wf(),
            self.piece_wf(*p),
            anchor_in_range(*p),
        ensures
            r == self.spec_fits(*p),
    {
        let n = self.shapes[p.shape_index].cells.len();
        let mut i: usize = 0;
        while i < n
            invariant
                i <= n,
                forall|j: int|
                    0 <= j < i ==> self.in_bounds(
                        #[trigger] self.piece_cell_x(*p, j),
                        self.piece_cell_y(*p, j),
                    ) && !self.occupied(self.piece_cell_x(*p, j), self.piece_cell_y(*p, j)),
            decreases n - i,
        {
            let off = self.shapes[p.shape_index].cells[i];
            proof {
                assert(shape_ok(self.shape_cells(p.shape_index as int)));
                assert(off == self.shape_cells(p.shape_index as int)[i as int]);
            }
            let (rdx, rdy) = Self::rot(off, p.orientation);
            let x = p.anchor_x + rdx;
            let y = p.anchor_y + rdy;
            if !(0 <= x && x < self.width && 0 <= y && y < self.height) {
                proof {
                    assert(self.piece_cell_x(*p, i as int) == x && self.piece_cell_y(*p, i as int)
                        == y);
                    assert(!self.in_bounds(self.piece_cell_x(*p, i as int), self.piece_cell_y(*p, i as int)));
                }
                return false;
            }
            match self.stack[y as usize][x as usize] {
                Cell::Occupied(_) => {
                    proof {
                        assert(self.piece_cell_x(*p, i as int) == x && self.piece_cell_y(
                            *p,
                            i as int,
                        ) == y);
                        assert(self.occupied(x as int, y as int));
                    }
                    return false;
                },
                Cell::Empty => {},
            }
            i += 1;
        }
        true
    }

    /// A machine over an accepted configuration: an all-empty stack of the
    /// configured size, the configured shapes, no active piece.
    #[verifier::loop_isolation(false)]
    pub fn new(config: Config) -> (s: Sim)
        requires
            config.wf(),
        ensures
            s.wf(),
            s.spec_width() == config.grid_width as int,
            s.spec_height() == config.grid_height as int,
            s.num_shapes() == config.shapes@.len(),
            forall|i: int|
                0 <= i < s.num_shapes() ==> #[trigger] s.shape_cells(i) == config.shapes@[i].cells@,
            s.spec_phase() is Empty,
            s.spec_piece() is None,
            forall|x: int, y: int| s.in_bounds(x, y) ==> s.cell_at(x, y) == Cell::Empty,
    {
        let width = config.grid_width;
        let height = config.grid_height;
        let mut stack: Vec<Vec<Cell>> = Vec::new();
        let mut y: usize = 0;
        while y < height as usize
            invariant
                y == stack@.len(),
                y <= height as usize,
                forall|r: int|
                    0 <= r < y ==> (#[trigger] stack@[r])@ == Seq::new(
                        width as nat,
                        |c: int| Cell::Empty,
                    ),
            decreases height - y,
        {
            let mut row: Vec<Cell> = Vec::new();
            let mut x: usize = 0;
            while x < width as usize
                invariant
                    x == row@.len(),
                    x <= width as usize,
                    forall|c: int| 0 <= c < x ==> row@[c] == Cell::Empty,
                decreases width - x,
            {
                row.push(Cell::Empty);
                x += 1;
            }
            assert(row@ =~= Seq::new(width as nat, |c: int| Cell::Empty));
            stack.push(row);
            y += 1;
        }
        Sim {
            width,
            height,
            shapes: config.shapes,
            stack,
            phase: Phase::Empty,
            piece: None,
        }
    }

    /// The piece a spawn would create: the given shape, anchored at the
    /// top-center of the grid, in its base orientation.
    pub open spec fn spec_spawn_piece(self, shape_index: usize) -> Piece {
        Piece {
            shape_index,
            anchor_x: (self.spec_width() / 2) as i32,
            anchor_y: (self.spec_height() - 1) as i32,
            orientation: 0,
        }
    }

    /// Spawn a new piece at the top-center of the grid. Succeeds, entering
    /// `Falling`, exactly when all the spawn cells are legal; otherwise the
    /// machine is left unchanged and the spawn is reported blocked — the
    /// top-out condition, to be surfaced by the caller.
    pub fn spawn(&mut self, shape_index: usize) -> (r: SpawnOutcome)
        requires
            old(self).wf(),
            old(self).spec_phase() is Empty,
            shape_index < old(self).num_shapes(),
        ensures
            final(self).wf(),
            final(self).same_grid(*old(self)),
            final(self).same_config(*old(self)),
            final(self).same_stack(*old(self)),
            ({
                let sp = old(self).spec_spawn_piece(shape_index);
                if old(self).spec_fits(sp) {
                    &&& r == SpawnOutcome::Spawned
                    &&& final(self).spec_phase() is Falling
                    &&& final(self).spec_piece() == Some(sp)
                } else {
                    &&& r == SpawnOutcome::Blocked
                    &&& final(self).spec_phase() is Empty
                    &&& final(self).spec_piece() is None
                }
            }),
    {
        let sp = Piece {
            shape_index,
            anchor_x: self.width / 2,
            anchor_y: self.height - 1,
            orientation: 0,
        };
        if self.fits(&sp) {
            self.piece = Some(sp);
            self.phase = Phase::Falling;
            proof {
                old(self).lemma_same_grid_wf(*self);
                old(self).lemma_same_grid_piece(*self, sp);
            }
            SpawnOutcome::Spawned
        } else {
            SpawnOutcome::Blocked
        }
    }

    /// Apply one gravity step to the falling piece. If the piece moved one
    /// cell down still fits, the move is committed and the piece keeps
    /// falling; otherwise the piece does not move and the machine enters
    /// `Landed`. Either way the piece's row never increases.
    pub fn apply_gravity(&mut self)
        requires
            old(self).wf(),
            old(self).spec_phase() is Falling,
        ensures
            final(self).wf(),
            final(self).same_grid(*old(self)),
            final(self).same_config(*old(self)),
            final(self).same_stack(*old(self)),
            ({
                let p = old(self).spec_piece()->0;
                if old(self).spec_fits(moved_down(p)) {
                    &&& final(self).spec_phase() is Falling
                    &&& final(self).spec_piece() == Some(moved_down(p))
                } else {
                    &&& final(self).spec_phase() is Landed
                    &&& final(self).spec_piece() == Some(p)
                }
            }),
            final(self).spec_piece()->0.anchor_y <= old(self).spec_piece()->0.anchor_y,
    {
        let p = self.piece.unwrap();
        proof {
            self.lemma_anchor_bounds(p);
        }
        let cand = Piece { anchor_y: p.anchor_y - 1, ..p };
        if self.fits(&cand) {
            self.piece = Some(cand);
            proof {
                old(self).lemma_same_grid_wf(*self);
                old(self).lemma_same_grid_piece(*self, cand);
            }
        } else {
            self.phase = Phase::Landed;
            proof {
                old(self).lemma_same_grid_wf(*self);
                old(self).lemma_same_grid_piece(*self, p);
            }
        }
    }

    /// Apply a rotation input to the falling piece: one quarter turn in the
    /// given direction about the shape origin. The candidate is judged by
    /// the same legality test as gravity; if it fails, the rotation is
    /// silently rejected and the piece — anchor, orientation and hence its
    /// whole cell set — is left exactly as it was.
    pub fn apply_rotation(&mut self, dir: Spin)
        requires
            old(self).wf(),
            old(self).spec_phase() is Falling,
        ensures
            final(self).wf(),
            final(self).same_grid(*old(self)),
            final(self).same_config(*old(self)),
            final(self).same_stack(*old(self)),
            final(self).spec_phase() is Falling,
            ({
                let p = old(self).spec_piece()->0;
                if old(self).spec_fits(turned(p, dir)) {
                    final(self).spec_piece() == Some(turned(p, dir))
                } else {
                    final(self).spec_piece() == Some(p)
                }
            }),
            ({
                let p = old(self).spec_piece()->0;
                !old(self).spec_fits(turned(p, dir)) ==> final(self).spec_piece() == old(
                    self,
                ).spec_piece() && (forall|x: int, y: int|
                    #[trigger] final(self).covers(p, x, y) == old(self).covers(p, x, y))
            }),
    {
        let p = self.piece.unwrap();
        proof {
            self.lemma_anchor_bounds(p);
        }
        let next_orientation: u8 = match dir {
            Spin::Right => (p.orientation + 1) % 4,
            Spin::Left => (p.orientation + 3) % 4,
        };
        let cand = Piece { orientation: next_orientation, ..p };
        if self.fits(&cand) {
            self.piece = Some(cand);
            proof {
                old(self).lemma_same_grid_wf(*self);
                old(self).lemma_same_grid_piece(*self, cand);
            }
        }
    }

    /// Commit the landed piece to the stack, atomically: afterwards the
    /// stack holds exactly the old stack plus every cell of the piece, each
    /// marked occupied with the piece's shape index, the active piece is
    /// cleared, and the machine is `Empty` again. No other cell changes.
    #[verifier::loop_isolation(false)]
    pub fn commit_landing(&mut self)
        requires
            old(self).wf(),
            old(self).spec_phase() is Landed,
        ensures
            final(self).wf(),
            final(self).same_config(*old(self)),
            final(self).spec_phase() is Empty,
            final(self).spec_piece() is None,
            ({
                let p = old(self).spec_piece()->0;
                forall|x: int, y: int|
                    old(self).in_bounds(x, y) ==> #[trigger] final(self).cell_at(x, y) == (
                    if old(self).covers(p, x, y) {
                        Cell::Occupied(p.shape_index)
                    } else {
                        old(self).cell_at(x, y)
                    })
            }),
    {
        let p = self.piece.unwrap();
        proof {
            self.lemma_anchor_bounds(p);
        }
        let n = self.shapes[p.shape_index].cells.len();
        let mut i: usize = 0;
        while i < n
            invariant
                i <= n,
                n == old(self).piece_len(p),
                self.width == old(self).width,
                self.height == old(self).height,
                self.shapes == old(self).shapes,
                self.phase == old(self).phase,
                self.piece == old(self).piece,
                self.stack_shape_ok(),
                forall|x: int, y: int|
                    old(self).in_bounds(x, y) ==> #[trigger] self.cell_at(x, y) == (
                    if old(self).covers_prefix(p, i as int, x, y) {
                        Cell::Occupied(p.shape_index)
                    } else {
                        old(self).cell_at(x, y)
                    }),
            decreases n - i,
        {
            let ghost prev = *self;
            let off = self.shapes[p.shape_index].cells[i];
            proof {
                assert(shape_ok(old(self).shape_cells(p.shape_index as int)));
                assert(off == old(self).shape_cells(p.shape_index as int)[i as int]);
            }
            let (rdx, rdy) = Self::rot(off, p.orientation);
            let x = p.anchor_x + rdx;
            let y = p.anchor_y + rdy;
            proof {
                assert(x == old(self).piece_cell_x(p, i as int));
                assert(y == old(self).piece_cell_y(p, i as int));
                assert(old(self).in_bounds(x as int, y as int));
            }
            self.stack[y as usize][x as usize] = Cell::Occupied(p.shape_index);
            proof {
                assert forall|yy: int| 0 <= yy < self.stack@.len() implies (
                #[trigger] self.stack@[yy])@.len() == self.spec_width() by {
                    assert(prev.stack@[yy]@.len() == prev.spec_width());
                }
                assert forall|a: int, b: int| old(self).in_bounds(a, b) implies
                    #[trigger] self.cell_at(a, b) == (
                if old(self).covers_prefix(p, i + 1, a, b) {
                    Cell::Occupied(p.shape_index)
                } else {
                    old(self).cell_at(a, b)
                }) by {
                    if a == x as int && b == y as int {
                        assert(old(self).covers_prefix(p, i + 1, a, b));
                    } else {
                        assert(self.cell_at(a, b) == prev.cell_at(a, b));
                        if old(self).covers_prefix(p, i + 1, a, b) {
                            let j = choose|j: int|
                                0 <= j < i + 1 && #[trigger] old(self).piece_cell_x(p, j) == a
                                    && old(self).piece_cell_y(p, j) == b;
                            assert(j != i);
                            assert(old(self).covers_prefix(p, i as int, a, b));
                        }
                    }
                }
            }
            i += 1;
        }
        let ghost done = *self;
        self.piece = None;
        self.phase = Phase::Empty;
        proof {
            assert forall|x: int, y: int| old(self).in_bounds(x, y) implies #[trigger] self.cell_at(
                x,
                y,
            ) == (if old(self).covers(p, x, y) {
                Cell::Occupied(p.shape_index)
            } else {
                old(self).cell_at(x, y)
            }) by {
                assert(done.cell_at(x, y) == self.cell_at(x, y));
            }
            assert forall|yy: int| 0 <= yy < self.stack@.len() implies (
            #[trigger] self.stack@[yy])@.len() == self.spec_width() by {
                assert(done.stack@[yy]@.len() == done.spec_width());
            }
            assert(self.stack@.len() == self.spec_height());
            assert forall|k: int| 0 <= k < self.num_shapes() implies shape_ok(
                #[trigger] self.shape_cells(k),
            ) by {
                assert(shape_ok(old(self).shape_cells(k)));
            }
        }
    }

    /// Which cells a piece covers depends only on the grid, never on the
    /// phase or on which piece is active.
    proof fn lemma_same_grid_covers(self, other: Sim, p: Piece, x: int, y: int)
        requires
            self.same_grid(other),
        ensures
            self.covers(p, x, y) == other.covers(p, x, y),
    {
        self.lemma_same_grid_piece(other, p);
        if self.covers(p, x, y) {
            let i = choose|i: int|
                0 <= i < self.piece_len(p) && #[trigger] self.piece_cell_x(p, i) == x
                    && self.piece_cell_y(p, i) == y;
            assert(other.piece_cell_x(p, i) == x && other.piece_cell_y(p, i) == y);
            assert(other.covers(p, x, y));
        }
        if other.covers(p, x, y) {
            let i = choose|i: int|
                0 <= i < other.piece_len(p) && #[trigger] other.piece_cell_x(p, i) == x
                    && other.piece_cell_y(p, i) == y;
            assert(self.piece_cell_x(p, i) == x && self.piece_cell_y(p, i) == y);
            assert(self.covers(p, x, y));
        }
    }

    /// Run one tick. With no active piece, a spawn of the given shape is
    /// attempted; a blocked spawn is the top-out signal. With a falling
    /// piece, one gravity step is applied; if the piece can no longer move
    /// down, it lands: its cells are committed to the stack and a
    /// replacement of the given shape is spawned in the same tick (whose own
    /// blocking again signals top-out). The machine never stays in `Landed`
    /// across ticks.
    pub fn tick(&mut self, shape_index: usize) -> (r: TickOutcome)
        requires
            old(self).wf(),
            !(old(self).spec_phase() is Landed),
            shape_index < old(self).num_shapes(),
        ensures
            final(self).wf(),
            final(self).same_config(*old(self)),
            !(final(self).spec_phase() is Landed),
            ({
                let sp = old(self).spec_spawn_piece(shape_index);
                old(self).spec_phase() is Empty ==> final(self).same_stack(*old(self)) && (
                if old(self).spec_fits(sp) {
                    &&& r == TickOutcome::Spawned
                    &&& final(self).spec_phase() is Falling
                    &&& final(self).spec_piece() == Some(sp)
                } else {
                    &&& r == TickOutcome::SpawnBlocked
                    &&& final(self).spec_phase() is Empty
                    &&& final(self).spec_piece() is None
                })
            }),
            ({
                let p = old(self).spec_piece()->0;
                old(self).spec_phase() is Falling && old(self).spec_fits(moved_down(p)) ==> {
                    &&& r == TickOutcome::Moved
                    &&& final(self).same_stack(*old(self))
                    &&& final(self).spec_phase() is Falling
                    &&& final(self).spec_piece() == Some(moved_down(p))
                }
            }),
            ({
                let p = old(self).spec_piece()->0;
                let sp = old(self).spec_spawn_piece(shape_index);
                old(self).spec_phase() is Falling && !old(self).spec_fits(moved_down(p)) ==> {
                    &&& forall|x: int, y: int|
                        old(self).in_bounds(x, y) ==> #[trigger] final(self).cell_at(x, y) == (
                        if old(self).covers(p, x, y) {
                            Cell::Occupied(p.shape_index)
                        } else {
                            old(self).cell_at(x, y)
                        })
                    &&& if final(self).spec_fits(sp) {
                        &&& r == TickOutcome::Landed
                        &&& final(self).spec_phase() is Falling
                        &&& final(self).spec_piece() == Some(sp)
                    } else {
                        &&& r == TickOutcome::SpawnBlocked
                        &&& final(self).spec_phase() is Empty
                        &&& final(self).spec_piece() is None
                    }
                }
            }),
    {
        let is_empty = match self.phase {
            Phase::Empty => true,
            _ => false,
        };
        if is_empty {
            match self.spawn(shape_index) {
                SpawnOutcome::Spawned => TickOutcome::Spawned,
                SpawnOutcome::Blocked => TickOutcome::SpawnBlocked,
            }
        } else {
            self.apply_gravity();
            let still_falling = match self.phase {
                Phase::Falling => true,
                _ => false,
            };
            if still_falling {
                TickOutcome::Moved
            } else {
                let ghost mid = *self;
                self.commit_landing();
                let ghost committed = *self;
                let outcome = match self.spawn(shape_index) {
                    SpawnOutcome::Spawned => TickOutcome::Landed,
                    SpawnOutcome::Blocked => TickOutcome::SpawnBlocked,
                };
                proof {
                    let p = old(self).spec_piece()->0;
                    assert forall|x: int, y: int| old(self).in_bounds(x, y) implies
                        #[trigger] self.cell_at(x, y) == (if old(self).covers(p, x, y) {
                        Cell::Occupied(p.shape_index)
                    } else {
                        old(self).cell_at(x, y)
                    }) by {
                        mid.lemma_same_grid_covers(*old(self), p, x, y);
                        assert(mid.cell_at(x, y) == old(self).cell_at(x, y));
                        assert(committed.cell_at(x, y) == self.cell_at(x, y));
                        assert(mid.in_bounds(x, y));
                    }
                    committed.lemma_same_grid_piece(
                        *self,
                        old(self).spec_spawn_piece(shape_index),
                    );
                }
                outcome
            }
        }
    }

    /// Grid width in cells.
    pub fn width(&self) -> (w: i32)
        ensures
            w == self.spec_width(),
    {
        self.width
    }

    /// Grid height in cells.
    pub fn height(&self) -> (h: i32)
        ensures
            h == self.spec_height(),
    {
        self.height
    }

    /// How many shapes the machine supports; spawn indices lie below this.
    pub fn shape_count(&self) -> (n: usize)
        ensures
            n == self.num_shapes(),
    {
        self.shapes.len()
    }

    /// The current phase.
    pub fn phase(&self) -> (ph: Phase)
        ensures
            ph == self.spec_phase(),
    {
        self.phase
    }

    /// The current active piece, if any.
    pub fn active_piece(&self) -> (p: Option<Piece>)
        ensures
            p == self.spec_piece(),
    {
        self.piece
    }

    /// The stack cell at the given in-bounds coordinates.
    pub fn cell(&self, x: i32, y: i32) -> (c: Cell)
        requires
            self.wf(),
            self.in_bounds(x as int, y as int),
        ensures
            c == self.cell_at(x as int, y as int),
    {
        self.stack[y as usize][x as usize]
    }

    /// The absolute grid cells of the active piece, in shape order, for
    /// rendering; empty when no piece is active.
    #[verifier::loop_isolation(false)]
    pub fn piece_cells(&self) -> (v: Vec<(i32, i32)>)
        requires
            self.wf(),
        ensures
            match self.spec_piece() {
                Some(p) => v@.len() == self.piece_len(p) && forall|i: int|
                    0 <= i < v@.len() ==> (#[trigger] v@[i]).0 == self.piece_cell_x(p, i)
                        && v@[i].1 == self.piece_cell_y(p, i),
                None => v@.len() == 0,
            },
    {
        let mut v: Vec<(i32, i32)> = Vec::new();
        match self.piece {
            None => v,
            Some(p) => {
                proof {
                    self.lemma_anchor_bounds(p);
                }
                let n = self.shapes[p.shape_index].cells.len();
                let mut i: usize = 0;
                while i < n
                    invariant
                        i <= n,
                        v@.len() == i,
                        forall|j: int|
                            0 <= j < i ==> (#[trigger] v@[j]).0 == self.piece_cell_x(p, j)
                                && v@[j].1 == self.piece_cell_y(p, j),
                    decreases n - i,
                {
                    let off = self.shapes[p.shape_index].cells[i];
                    proof {
                        assert(shape_ok(self.shape_cells(p.shape_index as int)));
                        assert(off == self.shape_cells(p.shape_index as int)[i as int]);
                    }
                    let (rdx, rdy) = Self::rot(off, p.orientation);
                    v.push((p.anchor_x + rdx, p.anchor_y + rdy));
                    i += 1;
                }
                v
            },
        }
    }

    /// Every cell of the active piece of a well-formed machine lies
    /// strictly within the grid bounds. Stack occupancy outside the grid is
    /// unrepresentable by construction: the stack is exactly a
    /// height-by-width field, so this pins down the piece side of the
    /// no-out-of-range-occupancy invariant.
    pub proof fn lemma_occupancy_in_bounds(self)
        requires
            self.wf(),
        ensures
            self.spec_piece() matches Some(p) ==> forall|i: int|
                0 <= i < self.piece_len(p) ==> self.in_bounds(
                    #[trigger] self.piece_cell_x(p, i),
                    self.piece_cell_y(p, i),
                ),
    {
    }
}

} // verus!
