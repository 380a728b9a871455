//! The 2D toroidal grid of tiles.

use vstd::prelude::*;
use vstd::arithmetic::div_mod::{lemma_fundamental_div_mod_converse, lemma_mod_bound};
use vstd::arithmetic::mul::{lemma_mul_strict_inequality, lemma_mul_inequality};
use crate::arith::{trunc_rem, trunc_div, rem_i32, div_i32};
use crate::types::{Position, Tile, TileType, fits_i32};
use crate::config::WorldConfig;
use crate::rng::gen_unit_bits;
use rand_chacha::ChaCha8Rng;

verus! {

/// A 2D toroidal grid, stored row by row.
pub struct Grid {
    pub width: i32,
    pub height: i32,
    pub tiles: Vec<Tile>,
}

/// The position of the `k`-th neighbor relative to the centre, for a square
/// neighbourhood of the given radius scanned row by row (smallest `dy`
/// first, then smallest `dx`), the centre itself left out.
pub open spec fn neighbor_offset(radius: int, k: int) -> (int, int) {
    let n = 2 * radius + 1;
    let j = if k < radius * n + radius { k } else { k + 1 };
    (j % n - radius, j / n - radius)
}

/// The position of a cell index in a grid of the given width.
pub open spec fn cell_pos(i: int, width: int) -> Position {
    Position { x: (i % width) as i32, y: (i / width) as i32 }
}

/// The tile that a 24-bit draw `d` makes: an obstacle, a hazard or a full
/// resource tile by the configured cumulative thresholds, else empty.
pub open spec fn classify_draw(d: int, c: WorldConfig) -> Tile {
    if d < c.obstacle_threshold {
        Tile { tile_type: TileType::Obstacle, resource_amount: 0, max_resource: 0 }
    } else if d < c.hazard_threshold {
        Tile { tile_type: TileType::Hazard, resource_amount: 0, max_resource: 0 }
    } else if d < c.resource_threshold {
        Tile {
            tile_type: TileType::Resource,
            resource_amount: c.max_resource_per_tile,
            max_resource: c.max_resource_per_tile,
        }
    } else {
        Tile::spec_empty()
    }
}

/// The tile is what some 24-bit draw makes.
pub open spec fn drawn_tile(t: Tile, c: WorldConfig) -> bool {
    exists|d: int| 0 <= d < 0x100_0000 && t == classify_draw(d, c)
}

/// The tiles are those the 24-bit draws make, one per tile, in order.
pub open spec fn tiles_of_rolls(rolls: Seq<u32>, tiles: Seq<Tile>, c: WorldConfig) -> bool {
    &&& rolls.len() == tiles.len()
    &&& forall|i: int| 0 <= i < rolls.len() ==> #[trigger] rolls[i] < 0x100_0000
        && tiles[i] == classify_draw(rolls[i] as int, c)
}

/// Number of neighbours in a square neighbourhood of the given radius.
pub open spec fn neighbor_count(radius: int) -> int {
    if radius < 0 { 0 } else { (2 * radius + 1) * (2 * radius + 1) - 1 }
}

impl Grid {
    /// The tiles, row by row.
    pub open spec fn tiles(&self) -> Seq<Tile> {
        self.tiles@
    }

    /// Positive dimensions and one tile per cell.
    pub open spec fn wf(&self) -> bool {
        &&& self.width > 0
        &&& self.height > 0
        &&& self.tiles().len() == self.width * self.height
        &&& self.width * self.height <= i32::MAX
    }

    /// The cell index of an in-grid position.
    pub open spec fn spec_index(&self, p: Position) -> int {
        p.y * self.width + p.x
    }

    /// The tile that `get` finds at a position, after wrapping.
    pub open spec fn spec_get(&self, pos: Position) -> Tile {
        self.tiles()[self.spec_index(pos.spec_wrap(self.width as int, self.height as int))]
    }

    /// Whether a position can be wrapped into this grid without overflow.
    pub open spec fn pos_ok(&self, pos: Position) -> bool {
        pos.wrap_ok(self.width as int, self.height as int)
    }

    /// Every position within `radius` of `pos` is computable and wraps
    /// into the grid without overflow.
    pub open spec fn neighborhood_ok(&self, pos: Position, radius: int) -> bool {
        forall|a: int, b: int|
            -radius <= a <= radius && -radius <= b <= radius ==> {
                &&& fits_i32(pos.x + a)
                &&& fits_i32(pos.y + b)
                &&& self.pos_ok(#[trigger] pos.spec_add(a, b))
            }
    }

    /// `list` holds, in order, the first neighbours of `pos` and their tiles.
    pub open spec fn neighbors_listed(&self, list: Seq<(Position, Tile)>, pos: Position, radius: int) -> bool {
        forall|k: int|
            0 <= k < list.len() ==> {
                let (dx, dy) = neighbor_offset(radius, k);
                &&& #[trigger] list[k].0 == pos.spec_add(dx, dy)
                &&& list[k].1 == self.spec_get(pos.spec_add(dx, dy))
            }
    }

    pub fn new(width: i32, height: i32) -> (r: Grid)
        requires
            0 <= width * height <= i32::MAX,
        ensures
            r.width == width,
            r.height == height,
            r.tiles() == Seq::new((width * height) as nat, |i: int| Tile::spec_empty()),
    {
        let size = (width * height) as usize;
        let mut tiles: Vec<Tile> = Vec::new();
        let mut i: usize = 0;
        while i < size
            invariant
                i <= size,
                tiles@ == Seq::new(i as nat, |k: int| Tile::spec_empty()),
            decreases size - i,
        {
            tiles.push(Tile::empty());
            i += 1;
            assert(tiles@ =~= Seq::new(i as nat, |k: int| Tile::spec_empty()));
        }
        Grid { width, height, tiles }
    }

    /// A grid laid out from a world configuration: each cell, row by row,
    /// takes one 24-bit draw and becomes the tile `classify_draw` gives.
    pub fn from_config(config: &WorldConfig, rng: &mut ChaCha8Rng) -> (r: Grid)
        requires
            0 <= config.width,
            0 <= config.height,
            config.width * config.height <= i32::MAX,
        ensures
            r.width == config.width,
            r.height == config.height,
            r.tiles().len() == config.width * config.height,
            forall|i: int| 0 <= i < r.tiles().len() ==> drawn_tile(#[trigger] r.tiles()[i], *config),
            exists|rolls: Seq<u32>| #[trigger] tiles_of_rolls(rolls, r.tiles(), *config),
    {
        proof {
            assert(0 <= config.width * config.height) by (nonlinear_arith)
                requires 0 <= config.width, 0 <= config.height;
        }
        let mut grid = Grid::new(config.width, config.height);
        let size = grid.tiles.len();
        let mut i: usize = 0;
        let ghost mut rolls: Seq<u32> = Seq::empty();
        while i < size
            invariant
                size == grid.tiles@.len(),
                size == config.width * config.height,
                grid.width == config.width,
                grid.height == config.height,
                i <= size,
                rolls.len() == i,
                forall|k: int| 0 <= k < i ==> drawn_tile(#[trigger] grid.tiles@[k], *config),
                forall|k: int| 0 <= k < i ==> #[trigger] rolls[k] < 0x100_0000
                    && grid.tiles@[k] == classify_draw(rolls[k] as int, *config),
            decreases size - i,
        {
            let roll = gen_unit_bits(rng);
            let tile = Grid::tile_from_roll(roll, config);
            let ghost prev = grid.tiles@;
            grid.tiles.set(i, tile);
            proof {
                let r2 = rolls.push(roll);
                assert forall|k: int| 0 <= k < i + 1 implies #[trigger] r2[k] < 0x100_0000
                    && grid.tiles@[k] == classify_draw(r2[k] as int, *config) by {
                    if k < i {
                        assert(grid.tiles@[k] == prev[k]);
                        assert(r2[k] == rolls[k]);
                    }
                }
                rolls = r2;
            }
            proof {
                assert(drawn_tile(tile, *config));
                assert forall|k: int| 0 <= k < i + 1 implies drawn_tile(#[trigger] grid.tiles@[k], *config) by {
                    if k < i {
                        assert(grid.tiles@[k] == prev[k]);
                    }
                }
            }
            i += 1;
        }
        proof {
            assert forall|k: int| 0 <= k < grid.tiles().len() implies drawn_tile(#[trigger] grid.tiles()[k], *config) by {
                assert(grid.tiles()[k] == grid.tiles@[k]);
            }
            assert(tiles_of_rolls(rolls, grid.tiles(), *config));
        }
        grid
    }

    /// The tile a 24-bit draw gives under a world configuration (see
    /// `classify_draw`).
    pub fn tile_from_roll(roll: u32, config: &WorldConfig) -> (r: Tile)
        ensures
            r == classify_draw(roll as int, *config),
    {
        if roll < config.obstacle_threshold {
            Tile::obstacle()
        } else if roll < config.hazard_threshold {
            Tile::hazard()
        } else if roll < config.resource_threshold {
            Tile::resource(config.max_resource_per_tile, config.max_resource_per_tile)
        } else {
            Tile::empty()
        }
    }

    /// Regrow the resource of one cell (see `Tile::grow`).
    pub fn grow_tile(&mut self, index: usize, growth: i32)
        requires
            index < old(self).tiles().len(),
            old(self).tiles()[index as int].growth_fits(growth as int),
        ensures
            final(self).width == old(self).width,
            final(self).height == old(self).height,
            final(self).tiles() == old(self).tiles().update(index as int, old(self).tiles()[index as int].spec_grown(growth as int)),
    {
        let mut tile = self.tiles[index];
        tile.grow(growth);
        self.tiles.set(index, tile);
    }

    /// Index of an in-grid position.
    pub fn pos_to_index(&self, pos: Position) -> (r: usize)
        requires
            self.wf(),
            0 <= pos.x < self.width,
            0 <= pos.y < self.height,
        ensures
            r == self.spec_index(pos),
            r < self.tiles().len(),
    {
        proof {
            lemma_cell_index_bound(pos.x as int, pos.y as int, self.width as int, self.height as int);
        }
        (pos.y * self.width + pos.x) as usize
    }

    /// Get the tile at a position (with toroidal wrapping).
    pub fn get(&self, pos: Position) -> (r: &Tile)
        requires
            self.wf(),
            self.pos_ok(pos),
        ensures
            *r == self.spec_get(pos),
    {
        let wrapped = pos.wrap(self.width, self.height);
        let index = self.pos_to_index(wrapped);
        &self.tiles[index]
    }

    /// Get the tile at a position (with toroidal wrapping) for update.
    pub fn get_mut(&mut self, pos: Position) -> (r: &mut Tile)
        requires
            old(self).wf(),
            old(self).pos_ok(pos),
        ensures
            *r == old(self).spec_get(pos),
            final(self).width == old(self).width,
            final(self).height == old(self).height,
            final(self).tiles() == old(self).tiles().update(
                old(self).spec_index(pos.spec_wrap(old(self).width as int, old(self).height as int)),
                *final(r),
            ),
    {
        let wrapped = pos.wrap(self.width, self.height);
        let index = self.pos_to_index(wrapped);
        &mut self.tiles[index]
    }

    /// Set the tile at a position (with toroidal wrapping).
    pub fn set(&mut self, pos: Position, tile: Tile)
        requires
            old(self).wf(),
            old(self).pos_ok(pos),
        ensures
            final(self).width == old(self).width,
            final(self).height == old(self).height,
            final(self).tiles() == old(self).tiles().update(
                old(self).spec_index(pos.spec_wrap(old(self).width as int, old(self).height as int)),
                tile,
            ),
            forall|q: Position| old(self).pos_ok(q) ==> #[trigger] final(self).spec_get(q) == (
                if q.spec_wrap(old(self).width as int, old(self).height as int)
                    == pos.spec_wrap(old(self).width as int, old(self).height as int) {
                    tile
                } else {
                    old(self).spec_get(q)
                }),
    {
        let ghost g = *self;
        let wrapped = pos.wrap(self.width, self.height);
        let index = self.pos_to_index(wrapped);
        self.tiles.set(index, tile);
        proof { lemma_get_after_set(g, pos, tile, *self); }
    }

    /// The neighbours of a position within a square of the given radius
    /// (the position itself excluded), each with a copy of its tile.
    #[verifier::spinoff_prover]
    pub fn neighbors(&self, pos: Position, radius: i32) -> (r: Vec<(Position, Tile)>)
        requires
            self.wf(),
            i32::MIN < radius < i32::MAX,
            self.neighborhood_ok(pos, radius as int),
        ensures
            r@.len() == neighbor_count(radius as int),
            forall|k: int|
                0 <= k < r@.len() ==> {
                    let (dx, dy) = neighbor_offset(radius as int, k);
                    &&& #[trigger] r@[k].0 == pos.spec_add(dx, dy)
                    &&& r@[k].1 == self.spec_get(pos.spec_add(dx, dy))
                },
    {
        let mut neighbors: Vec<(Position, Tile)> = Vec::new();
        if radius < 0 {
            return neighbors;
        }
        let ghost n: int = 2 * radius + 1;
        let ghost c: int = radius * n + radius;
        proof {
            assert(n * n - 1 >= 0) by (nonlinear_arith) requires n >= 1;
            assert((-radius + radius) * n == 0) by (nonlinear_arith);
        }
        let mut dy: i32 = -radius;
        while dy <= radius
            invariant
                self.wf(),
                0 <= radius < i32::MAX,
                n == 2 * radius + 1,
                c == radius * n + radius,
                -radius <= dy <= radius + 1,
                self.neighborhood_ok(pos, radius as int),
                neighbors@.len() == (dy + radius) * n - (if dy > 0 { 1int } else { 0int }),
                self.neighbors_listed(neighbors@, pos, radius as int),
            decreases radius - dy + 1,
        {
            let mut dx: i32 = -radius;
            while dx <= radius
                invariant
                    self.wf(),
                    0 <= radius < i32::MAX,
                    n == 2 * radius + 1,
                    c == radius * n + radius,
                    -radius <= dy <= radius,
                    -radius <= dx <= radius + 1,
                    self.neighborhood_ok(pos, radius as int),
                    neighbors@.len() == (dy + radius) * n + (dx + radius)
                        - (if dy > 0 || (dy == 0 && dx > 0) { 1int } else { 0int }),
                    self.neighbors_listed(neighbors@, pos, radius as int),
                decreases radius - dx + 1,
            {
                if dx == 0 && dy == 0 {
                    dx += 1;
                    continue;
                }
                proof {
                    let a = dx as int;
                    let b = dy as int;
                    assert(-radius <= a <= radius && -radius <= b <= radius);
                    assert(self.pos_ok(pos.spec_add(a, b)));
                }
                let neighbor_pos = pos.add(dx, dy);
                let tile = *self.get(neighbor_pos);
                proof {
                    let k = neighbors@.len() as int;
                    let j = (dy + radius) * n + (dx + radius);
                    let before_centre = dy < 0 || (dy == 0 && dx < 0);
                    assert(j == if before_centre { k } else { k + 1 });
                    assert((before_centre <==> j < c) && j != c) by (nonlinear_arith)
                        requires
                            !(dx == 0 && dy == 0),
                            j == (dy + radius) * n + (dx + radius),
                            c == radius * n + radius,
                            n == 2 * radius + 1,
                            -radius <= dx <= radius,
                            -radius <= dy <= radius,
                            radius >= 0,
                            before_centre == (dy < 0 || (dy == 0 && dx < 0)),
                    ;
                    assert(k < c <==> j < c);
                    lemma_fundamental_div_mod_converse(j, n, dy + radius, dx + radius);
                    assert(neighbor_offset(radius as int, k) == (dx as int, dy as int));
                }
                let ghost k0 = neighbors@.len() as int;
                assert(neighbor_offset(radius as int, k0) == (dx as int, dy as int));
                let ghost prev = neighbors@;
                neighbors.push((neighbor_pos, tile));
                proof {
                    let k = prev.len() as int;
                    assert forall|i: int| 0 <= i < neighbors@.len() implies {
                        let (ox, oy) = neighbor_offset(radius as int, i);
                        &&& #[trigger] neighbors@[i].0 == pos.spec_add(ox, oy)
                        &&& neighbors@[i].1 == self.spec_get(pos.spec_add(ox, oy))
                    } by {
                        if i < k {
                            assert(neighbors@[i] == prev[i]);
                        } else {
                            assert(neighbor_offset(radius as int, i) == (dx as int, dy as int));
                        }
                    }
                }
                dx += 1;
            }
            dy += 1;
            proof {
                assert(neighbors@.len() == (dy + radius) * n - (if dy > 0 { 1int } else { 0int }))
                    by (nonlinear_arith)
                    requires
                        neighbors@.len() == (dy - 1 + radius) * n + (radius + 1 + radius)
                            - (if dy - 1 > 0 || (dy - 1 == 0 && radius + 1 > 0) { 1int } else { 0int }),
                        n == 2 * radius + 1,
                        radius >= 0;
            }
        }
        proof {
            assert((dy + radius) * n - 1 == n * n - 1) by (nonlinear_arith)
                requires dy == radius + 1, n == 2 * radius + 1;
        }
        neighbors
    }

    /// The position of a cell index.
    pub fn index_to_pos(&self, index: usize) -> (r: Position)
        requires
            self.width != 0,
            !((index as i32) == i32::MIN && self.width == -1),
        ensures
            r.x == trunc_rem((index as i32) as int, self.width as int),
            r.y == trunc_div((index as i32) as int, self.width as int),
            self.wf() && index < self.tiles().len() ==> {
                &&& r == cell_pos(index as int, self.width as int)
                &&& 0 <= r.x < self.width && 0 <= r.y < self.height
                &&& self.spec_index(r) == index
            },
    {
        proof {
            if self.wf() && index < self.tiles().len() {
                lemma_cell_of_index(index as int, self.width as int, self.height as int);
                lemma_index_of_cell(index as int, self.width as int);
            }
        }
        let i = index as i32;
        let x = rem_i32(i, self.width);
        let y = div_i32(i, self.width);
        Position::new(x, y)
    }

    /// All positions of the grid, in cell order.
    pub fn positions(&self) -> (r: Vec<Position>)
        requires
            self.wf(),
        ensures
            r@.len() == self.tiles().len(),
            forall|i: int|
                0 <= i < r@.len() ==> #[trigger] r@[i] == cell_pos(i, self.width as int),
    {
        let mut out: Vec<Position> = Vec::new();
        let mut i: usize = 0;
        while i < self.tiles.len()
            invariant
                self.wf(),
                i <= self.tiles@.len(),
                out@.len() == i,
                forall|k: int|
                    0 <= k < i ==> #[trigger] out@[k] == cell_pos(k, self.width as int),
            decreases self.tiles@.len() - i,
        {
            let p = self.index_to_pos(i);
            proof { lemma_cell_of_index(i as int, self.width as int, self.height as int); }
            out.push(p);
            i += 1;
        }
        out
    }

    /// All tiles with their positions, in cell order.
    pub fn iter(&self) -> (r: Vec<(Position, Tile)>)
        requires
            self.wf(),
        ensures
            r@.len() == self.tiles().len(),
            forall|i: int|
                0 <= i < r@.len() ==> #[trigger] r@[i] == (cell_pos(i, self.width as int), self.tiles()[i]),
    {
        let mut out: Vec<(Position, Tile)> = Vec::new();
        let mut i: usize = 0;
        while i < self.tiles.len()
            invariant
                self.wf(),
                i <= self.tiles@.len(),
                out@.len() == i,
                forall|k: int|
                    0 <= k < i ==> #[trigger] out@[k] == (cell_pos(k, self.width as int), self.tiles@[k]),
            decreases self.tiles@.len() - i,
        {
            let p = self.index_to_pos(i);
            proof { lemma_cell_of_index(i as int, self.width as int, self.height as int); }
            out.push((p, self.tiles[i]));
            i += 1;
        }
        out
    }
}

/// The eight neighbour offsets of radius one, in order.
pub proof fn lemma_neighbor_offsets()
    ensures
        neighbor_offset(1, 0) == (-1int, -1int),
        neighbor_offset(1, 1) == (0int, -1int),
        neighbor_offset(1, 2) == (1int, -1int),
        neighbor_offset(1, 3) == (-1int, 0int),
        neighbor_offset(1, 4) == (1int, 0int),
        neighbor_offset(1, 5) == (-1int, 1int),
        neighbor_offset(1, 6) == (0int, 1int),
        neighbor_offset(1, 7) == (1int, 1int),
        forall|j: int| 0 <= j < 8 ==> -1 <= #[trigger] neighbor_offset(1, j).0 <= 1 && -1 <= neighbor_offset(1, j).1 <= 1,
        neighbor_count(1) == 8,
{
    assert(0int % 3 == 0 && 0int / 3 == 0 && 1int % 3 == 1 && 1int / 3 == 0) by (nonlinear_arith);
    assert(2int % 3 == 2 && 2int / 3 == 0 && 3int % 3 == 0 && 3int / 3 == 1) by (nonlinear_arith);
    assert(5int % 3 == 2 && 5int / 3 == 1 && 6int % 3 == 0 && 6int / 3 == 2) by (nonlinear_arith);
    assert(7int % 3 == 1 && 7int / 3 == 2 && 8int % 3 == 2 && 8int / 3 == 2) by (nonlinear_arith);
    assert forall|j: int| 0 <= j < 8 implies -1 <= #[trigger] neighbor_offset(1, j).0 <= 1 && -1 <= neighbor_offset(1, j).1 <= 1 by {
        if j == 0 {} else if j == 1 {} else if j == 2 {} else if j == 3 {} else if j == 4 {} else if j == 5 {} else if j == 6 {} else {}
    }
}

/// A cell index inside the grid is a valid `i32` and splits into its row
/// and column.
pub proof fn lemma_cell_of_index(i: int, w: int, h: int)
    requires
        w > 0,
        h > 0,
        0 <= i < w * h,
        w * h <= i32::MAX,
    ensures
        (i as i32) as int == i,
        trunc_rem(i, w) == i % w,
        trunc_div(i, w) == i / w,
        0 <= i % w < w,
        0 <= i / w < h,
{
    lemma_mod_bound(i, w);
    vstd::arithmetic::div_mod::lemma_div_pos_is_pos(i, w);
    vstd::arithmetic::div_mod::lemma_fundamental_div_mod(i, w);
    if i / w >= h {
        lemma_mul_inequality(h, i / w, w);
        assert(w * (i / w) >= w * h) by (nonlinear_arith)
            requires i / w >= h, w > 0;
    }
}

/// The cell index of an in-grid position is in range.
pub proof fn lemma_cell_index_bound(x: int, y: int, w: int, h: int)
    requires
        0 <= x < w,
        0 <= y < h,
    ensures
        0 <= y * w + x < w * h,
{
    assert(0 <= y * w + x < w * h) by (nonlinear_arith)
        requires 0 <= x < w, 0 <= y < h;
}

/// What `get` finds after `set`: the new tile at every position that wraps
/// to the cell set, the old tile everywhere else; the dimensions stay.
pub proof fn lemma_get_after_set(g: Grid, pos: Position, tile: Tile, post: Grid)
    requires
        g.wf(),
        g.pos_ok(pos),
        post.width == g.width,
        post.height == g.height,
        post.tiles() == g.tiles().update(g.spec_index(pos.spec_wrap(g.width as int, g.height as int)), tile),
    ensures
        post.wf(),
        forall|q: Position| g.pos_ok(q) ==> #[trigger] post.spec_get(q) == (
            if q.spec_wrap(g.width as int, g.height as int) == pos.spec_wrap(g.width as int, g.height as int) {
                tile
            } else {
                g.spec_get(q)
            }),
{
    let w = g.width as int;
    let h = g.height as int;
    crate::arith::lemma_wrap_is_euclid_mod(pos.x as int, w);
    crate::arith::lemma_wrap_is_euclid_mod(pos.y as int, h);
    let pw = pos.spec_wrap(w, h);
    lemma_in_grid_index(w, h, pw.x as int, pw.y as int);
    assert forall|q: Position| g.pos_ok(q) implies #[trigger] post.spec_get(q) == (
        if q.spec_wrap(w, h) == pw { tile } else { g.spec_get(q) }) by {
        crate::arith::lemma_wrap_is_euclid_mod(q.x as int, w);
        crate::arith::lemma_wrap_is_euclid_mod(q.y as int, h);
        let qw = q.spec_wrap(w, h);
        lemma_in_grid_index(w, h, qw.x as int, qw.y as int);
        if qw != pw {
            lemma_index_injective(w, h, qw.x as int, qw.y as int, pw.x as int, pw.y as int);
        }
    }
}

/// A cell inside a grid has an index below the number of cells.
proof fn lemma_in_grid_index(w: int, h: int, x: int, y: int)
    requires
        0 <= x < w,
        0 <= y < h,
    ensures
        0 <= y * w + x < w * h,
{
    assert(0 <= y * w + x < w * h) by (nonlinear_arith)
        requires 0 <= x < w, 0 <= y < h;
}

/// Distinct cells inside a grid have distinct indices.
proof fn lemma_index_injective(w: int, h: int, x1: int, y1: int, x2: int, y2: int)
    requires
        0 <= x1 < w,
        0 <= y1 < h,
        0 <= x2 < w,
        0 <= y2 < h,
        x1 != x2 || y1 != y2,
    ensures
        y1 * w + x1 != y2 * w + x2,
{
    if y1 == y2 {
    } else if y1 < y2 {
        assert(y1 * w + x1 < y2 * w + x2) by (nonlinear_arith)
            requires 0 <= x1 < w, 0 <= x2, y1 < y2;
    } else {
        assert(y2 * w + x2 < y1 * w + x1) by (nonlinear_arith)
            requires 0 <= x2 < w, 0 <= x1, y2 < y1;
    }
}

/// An index is the index of its cell position.
proof fn lemma_index_of_cell(i: int, w: int)
    requires
        w > 0,
        0 <= i,
    ensures
        (i / w) * w + i % w == i,
{
    vstd::arithmetic::div_mod::lemma_fundamental_div_mod(i, w);
    assert((i / w) * w == w * (i / w)) by (nonlinear_arith);
}

/// Cell indices and positions inside the grid correspond one to one: the
/// index of an in-grid position lies in the grid and gives the position
/// back, and every index in the grid is the index of its cell position.
pub proof fn lemma_index_round_trip(g: Grid, p: Position, i: int)
    requires
        g.wf(),
    ensures
        0 <= p.x < g.width && 0 <= p.y < g.height ==> {
            &&& 0 <= g.spec_index(p) < g.tiles().len()
            &&& cell_pos(g.spec_index(p), g.width as int) == p
        },
        0 <= i < g.tiles().len() ==> {
            &&& 0 <= cell_pos(i, g.width as int).x < g.width
            &&& 0 <= cell_pos(i, g.width as int).y < g.height
            &&& g.spec_index(cell_pos(i, g.width as int)) == i
        },
{
    let w = g.width as int;
    let h = g.height as int;
    if 0 <= p.x < w && 0 <= p.y < h {
        lemma_cell_index_bound(p.x as int, p.y as int, w, h);
        let k = p.y * w + p.x;
        lemma_fundamental_div_mod_converse(k, w, p.y as int, p.x as int);
    }
    if 0 <= i < g.tiles().len() {
        lemma_cell_of_index(i, w, h);
        lemma_index_of_cell(i, w);
    }
}

/// `get` sees the grid as a torus: positions whose coordinates differ by
/// multiples of the width and of the height find the same tile.
pub proof fn lemma_get_periodic(g: Grid, p: Position, q: Position)
    requires
        g.wf(),
        g.pos_ok(p),
        g.pos_ok(q),
        (p.x - q.x) % (g.width as int) == 0,
        (p.y - q.y) % (g.height as int) == 0,
    ensures
        g.spec_get(p) == g.spec_get(q),
{
    let w = g.width as int;
    let h = g.height as int;
    crate::arith::lemma_wrap_is_euclid_mod(p.x as int, w);
    crate::arith::lemma_wrap_is_euclid_mod(q.x as int, w);
    crate::arith::lemma_wrap_is_euclid_mod(p.y as int, h);
    crate::arith::lemma_wrap_is_euclid_mod(q.y as int, h);
    vstd::arithmetic::div_mod::lemma_mod_equivalence(p.x as int, q.x as int, w);
    vstd::arithmetic::div_mod::lemma_mod_equivalence(p.y as int, q.y as int, h);
}

} // verus!
