//! The loaded part of the world: block positions and a cuboid of block states.

use vstd::prelude::*;
use crate::blocks::{BlockRegistry, BlockStateId};
use crate::collections::PosKey;
use crate::cost::{penalty_of, solid_floor};

verus! {

/// A spatial position as mathematical integers.
pub type Point = (int, int, int);

/// Largest absolute horizontal or vertical block coordinate the world uses
/// (the world border).
pub const WORLD_LIMIT: i32 = 30_000_000;

/// Position of a block, or of a mob's feet.
#[derive(Clone, Copy, Debug, PartialEq, Eq, Structural)]
pub struct BlockPos {
    pub x: i32,
    pub y: i32,
    pub z: i32,
}

impl BlockPos {
    /// The position `(x, y, z)`.
    pub fn of(x: i32, y: i32, z: i32) -> (r: BlockPos)
        ensures
            r.x == x && r.y == y && r.z == z,
    {
        BlockPos { x, y, z }
    }

    /// Coordinates `(x, z)` of the chunk holding this block.
    pub fn chunk(&self) -> (r: (i32, i32))
        ensures
            r.0 == chunk_coord(self.x as int),
            r.1 == chunk_coord(self.z as int),
    {
        (chunk_of(self.x), chunk_of(self.z))
    }

    /// The position as integers.
    pub open spec fn point(self) -> Point {
        (self.x as int, self.y as int, self.z as int)
    }
}

/// The chunk coordinate (16 blocks per chunk) of block coordinate `v`,
/// rounding down.
pub open spec fn chunk_coord(v: int) -> int {
    v / 16
}

fn chunk_of(v: i32) -> (r: i32)
    ensures
        r == chunk_coord(v as int),
{
    if v >= 0 {
        v / 16
    } else {
        let n: i32 = -(v + 1);
        let q: i32 = n / 16;
        proof {
            assert(v as int == -(n as int) - 1);
            assert((-(n as int) - 1) / 16 == -((n as int) / 16) - 1) by (nonlinear_arith)
                requires n >= 0;
        }
        -q - 1
    }
}

/// Whether two chunks are within `distance` chunks of each other along both
/// axes (the render-distance square).
pub fn chunk_within(a: (i32, i32), b: (i32, i32), distance: i32) -> (r: bool)
    ensures
        r == ((a.0 - b.0 <= distance && b.0 - a.0 <= distance) && (a.1 - b.1 <= distance && b.1 - a.1 <= distance)),
{
    let dx = a.0 as i64 - b.0 as i64;
    let dz = a.1 as i64 - b.1 as i64;
    let d = distance as i64;
    dx <= d && -dx <= d && dz <= d && -dz <= d
}

/// A player's render distance: their view distance, capped by the server's.
pub fn player_render_distance(view_distance: u8, server_distance: u32) -> (r: u32)
    ensures
        r == if (view_distance as u32) < server_distance { view_distance as u32 } else { server_distance },
{
    let v = view_distance as u32;
    if v < server_distance { v } else { server_distance }
}

/// A key as integers.
pub open spec fn key_point(k: PosKey) -> Point {
    (k.0 as int, k.1 as int, k.2 as int)
}

/// Whether every coordinate lies within the world border.
pub open spec fn in_world(p: Point) -> bool {
    -WORLD_LIMIT <= p.0 <= WORLD_LIMIT && -WORLD_LIMIT <= p.1 <= WORLD_LIMIT
        && -WORLD_LIMIT <= p.2 <= WORLD_LIMIT
}

/// The loaded part of the world that pathfinding may read: block states in
/// a cuboid whose least corner is `origin`, indexed `blocks[dx][dy][dz]`.
/// Everything outside it reads as air (an unloaded chunk).
pub struct Terrain {
    pub registry: BlockRegistry,
    pub origin: BlockPos,
    pub blocks: Vec<Vec<Vec<BlockStateId>>>,
}

impl Terrain {
    /// The id of the block state at `p`; 0 (air) outside the loaded cuboid.
    pub open spec fn block_id_at(&self, p: Point) -> u32 {
        let i = p.0 - self.origin.x;
        let j = p.1 - self.origin.y;
        let k = p.2 - self.origin.z;
        if 0 <= i < self.blocks@.len() && 0 <= j < self.blocks@[i]@.len() && 0 <= k
            < self.blocks@[i]@[j]@.len() {
            self.blocks@[i]@[j]@[k].0
        } else {
            0
        }
    }

    /// Pathfinding penalty of the block at `p`.
    pub open spec fn penalty_at(&self, p: Point) -> i32 {
        penalty_of(self.registry@, self.block_id_at(p))
    }

    /// Whether the block at `p` is a solid block to stand on.
    pub open spec fn floor_at(&self, p: Point) -> bool {
        solid_floor(self.registry@, self.block_id_at(p))
    }

    /// Every loaded block lies at least two blocks inside the world border.
    pub open spec fn fits_world(&self) -> bool {
        &&& -WORLD_LIMIT + 2 <= self.origin.x && self.origin.x + self.blocks@.len() <= WORLD_LIMIT - 2
        &&& -WORLD_LIMIT + 2 <= self.origin.y && -WORLD_LIMIT + 2 <= self.origin.z
        &&& forall|i: int| 0 <= i < self.blocks@.len() ==>
            self.origin.y + (#[trigger] self.blocks@[i])@.len() <= WORLD_LIMIT - 2
        &&& forall|i: int, j: int| 0 <= i < self.blocks@.len() && 0 <= j < self.blocks@[i]@.len() ==>
            self.origin.z + (#[trigger] self.blocks@[i]@[j])@.len() <= WORLD_LIMIT - 2
    }

    /// Checks `fits_world`.
    pub fn check_fits_world(&self) -> (r: bool)
        ensures
            r == self.fits_world(),
    {
        let ox = self.origin.x as i128;
        let oy = self.origin.y as i128;
        let oz = self.origin.z as i128;
        let lim = WORLD_LIMIT as i128;
        if ox < -lim + 2 || oy < -lim + 2 || oz < -lim + 2 {
            return false;
        }
        if ox + self.blocks.len() as i128 > lim - 2 {
            return false;
        }
        let mut i: usize = 0;
        while i < self.blocks.len()
            invariant
                i <= self.blocks@.len(),
                ox == self.origin.x, oy == self.origin.y, oz == self.origin.z, lim == WORLD_LIMIT,
                forall|a: int| 0 <= a < i ==> self.origin.y + (#[trigger] self.blocks@[a])@.len() <= WORLD_LIMIT - 2,
                forall|a: int, b: int| 0 <= a < i && 0 <= b < self.blocks@[a]@.len() ==>
                    self.origin.z + (#[trigger] self.blocks@[a]@[b])@.len() <= WORLD_LIMIT - 2,
            decreases self.blocks@.len() - i,
        {
            let col = &self.blocks[i];
            if oy + col.len() as i128 > lim - 2 {
                return false;
            }
            let mut j: usize = 0;
            while j < col.len()
                invariant
                    j <= col@.len(),
                    i < self.blocks@.len(),
                    *col == self.blocks@[i as int],
                    oz == self.origin.z, lim == WORLD_LIMIT,
                    forall|b: int| 0 <= b < j ==> self.origin.z + (#[trigger] col@[b])@.len() <= WORLD_LIMIT - 2,
                decreases col@.len() - j,
            {
                if oz + col[j].len() as i128 > lim - 2 {
                    return false;
                }
                j = j + 1;
            }
            i = i + 1;
        }
        true
    }
}


impl Terrain {
    /// The block state at `(x, y, z)`; air outside the loaded terrain.
    pub fn block_at(&self, x: i32, y: i32, z: i32) -> (r: BlockStateId)
        ensures
            r.0 == self.block_id_at((x as int, y as int, z as int)),
    {
        let i = x as i64 - self.origin.x as i64;
        let j = y as i64 - self.origin.y as i64;
        let k = z as i64 - self.origin.z as i64;
        if i < 0 || (i as u64) >= (self.blocks.len() as u64) {
            return BlockStateId::air();
        }
        let col = &self.blocks[i as usize];
        if j < 0 || (j as u64) >= (col.len() as u64) {
            return BlockStateId::air();
        }
        let row = &col[j as usize];
        if k < 0 || (k as u64) >= (row.len() as u64) {
            return BlockStateId::air();
        }
        row[k as usize]
    }

    /// Whether `p` lies inside the loaded cuboid.
    pub open spec fn loaded(&self, p: Point) -> bool {
        let i = p.0 - self.origin.x;
        let j = p.1 - self.origin.y;
        let k = p.2 - self.origin.z;
        0 <= i < self.blocks@.len() && 0 <= j < self.blocks@[i]@.len() && 0 <= k < self.blocks@[i]@[j]@.len()
    }

    /// A position outside the loaded terrain reads as air: nothing there is
    /// ever loaded, generated or changed by reading it.
    pub proof fn lemma_unloaded_is_air(&self, p: Point)
        requires
            !self.loaded(p),
        ensures
            self.block_id_at(p) == 0,
    {
    }

    /// Sets the block at `(x, y, z)` to `id`; outside the loaded terrain
    /// nothing changes.
    pub fn set_block(&mut self, x: i32, y: i32, z: i32, id: BlockStateId)
        ensures
            final(self).registry@ == old(self).registry@,
            final(self).origin == old(self).origin,
            final(self).blocks@.len() == old(self).blocks@.len(),
            forall|i: int| 0 <= i < old(self).blocks@.len() ==> (#[trigger] final(self).blocks@[i])@.len() == old(self).blocks@[i]@.len(),
            forall|i: int, j: int| 0 <= i < old(self).blocks@.len() && 0 <= j < old(self).blocks@[i]@.len() ==>
                (#[trigger] final(self).blocks@[i]@[j])@.len() == old(self).blocks@[i]@[j]@.len(),
            forall|p: Point| #[trigger] final(self).block_id_at(p) == if p == (x as int, y as int, z as int) && old(self).loaded(p) {
                id.0
            } else {
                old(self).block_id_at(p)
            },
    {
        let i = x as i64 - self.origin.x as i64;
        let j = y as i64 - self.origin.y as i64;
        let k = z as i64 - self.origin.z as i64;
        if i < 0 || (i as u64) >= (self.blocks.len() as u64) {
            return;
        }
        if j < 0 || (j as u64) >= (self.blocks[i as usize].len() as u64) {
            return;
        }
        if k < 0 || (k as u64) >= (self.blocks[i as usize][j as usize].len() as u64) {
            return;
        }
        let ghost old_blocks = self.blocks@;
        let mut col = self.blocks.remove(i as usize);
        let mut row = col.remove(j as usize);
        row.set(k as usize, id);
        col.insert(j as usize, row);
        self.blocks.insert(i as usize, col);
        assert(self.blocks@ =~= old_blocks.update(i as int, self.blocks@[i as int]));
        proof {
            assert forall|p: Point| #[trigger] self.block_id_at(p) == if p == (x as int, y as int, z as int) && old(self).loaded(p) {
                id.0
            } else {
                old(self).block_id_at(p)
            } by {
                let a = p.0 - self.origin.x;
                let b = p.1 - self.origin.y;
                if a == i && b == j {
                } else if a == i {
                }
            }
        }
    }
}

} // verus!
