//! Finding spawn positions: rings of chunks around the spawn centre, the
//! columns of a chunk in random order, and which surfaces players may
//! spawn on.

use vstd::prelude::*;
use rand::seq::SliceRandom;
use crate::blocks::{BlockDataView, BlockRegistry, BlockStateId};
use crate::text::{chars_of, eq_lit, seq_trim_start_matches, trim_start_matches_lit};
use crate::world::BlockPos;

verus! {

/// Position of a chunk, in chunks.
#[derive(Clone, Copy, Debug, PartialEq, Eq, Structural)]
pub struct ChunkPos {
    pub x: i32,
    pub z: i32,
}

impl ChunkPos {
    /// The chunk `(x, z)`.
    pub fn new(x: i32, z: i32) -> (r: ChunkPos)
        ensures
            r.x == x && r.z == z,
    {
        ChunkPos { x, z }
    }
}

/// Largest ring radius searched around the spawn centre.
pub const MAX_SPAWN_CHUNK_RADIUS: i32 = 128;

/// Offset `(x, z)` lies on the ring of Chebyshev radius `radius`.
pub open spec fn on_ring(x: int, z: int, radius: int) -> bool {
    -radius <= x <= radius && -radius <= z <= radius && (x == radius || x == -radius || z == radius
        || z == -radius)
}

/// `a` comes strictly before `b` in (x, then z) order.
pub open spec fn before(a: (i32, i32), b: (i32, i32)) -> bool {
    a.0 < b.0 || (a.0 == b.0 && a.1 < b.1)
}

/// The chunks at Chebyshev distance exactly `radius` from `center`, in
/// increasing x, then increasing z (none for a negative radius).
pub fn chunk_ring(center: ChunkPos, radius: i32) -> (r: Vec<(i32, i32)>)
    requires
        radius < i32::MAX,
        radius >= 0 ==> i32::MIN <= center.x - radius && center.x + radius <= i32::MAX,
        radius >= 0 ==> i32::MIN <= center.z - radius && center.z + radius <= i32::MAX,
    ensures
        forall|i: int, j: int| 0 <= i < j < r@.len() ==> before(#[trigger] r@[i], #[trigger] r@[j]),
        forall|i: int| 0 <= i < r@.len() ==> on_ring(r@[i].0 - center.x, r@[i].1 - center.z, radius as int),
        forall|x: int, z: int| on_ring(x, z, radius as int) ==> #[trigger] r@.contains(((center.x + x) as i32, (center.z + z) as i32)),
{
    let center_x = center.x;
    let center_z = center.z;
    let mut out: Vec<(i32, i32)> = Vec::new();
    if radius < 0 {
        return out;
    }
    let mut x: i32 = -radius;
    while x <= radius
        invariant
            0 <= radius < i32::MAX,
            i32::MIN <= center.x - radius && center.x + radius <= i32::MAX,
            i32::MIN <= center.z - radius && center.z + radius <= i32::MAX,
            center_x == center.x, center_z == center.z,
            -radius <= x <= radius + 1,
            forall|i: int, j: int| 0 <= i < j < out@.len() ==> before(#[trigger] out@[i], #[trigger] out@[j]),
            forall|i: int| 0 <= i < out@.len() ==> on_ring(out@[i].0 - center.x, out@[i].1 - center.z, radius as int)
                && out@[i].0 - center.x < x,
            forall|a: int, b: int| on_ring(a, b, radius as int) && a < x ==> #[trigger] out@.contains(((center.x + a) as i32, (center.z + b) as i32)),
        decreases radius + 1 - x,
    {
        let mut z: i32 = -radius;
        while z <= radius
            invariant
                0 <= radius < i32::MAX,
                i32::MIN <= center.x - radius && center.x + radius <= i32::MAX,
                i32::MIN <= center.z - radius && center.z + radius <= i32::MAX,
                center_x == center.x, center_z == center.z,
                -radius <= x <= radius,
                -radius <= z <= radius + 1,
                forall|i: int, j: int| 0 <= i < j < out@.len() ==> before(#[trigger] out@[i], #[trigger] out@[j]),
                forall|i: int| 0 <= i < out@.len() ==> on_ring(out@[i].0 - center.x, out@[i].1 - center.z, radius as int)
                    && (out@[i].0 - center.x < x || (out@[i].0 - center.x == x && out@[i].1 - center.z < z)),
                forall|a: int, b: int| on_ring(a, b, radius as int) && (a < x || (a == x && b < z)) ==>
                    #[trigger] out@.contains(((center.x + a) as i32, (center.z + b) as i32)),
            decreases radius + 1 - z,
        {
            let ax = if x < 0 { -x } else { x };
            let az = if z < 0 { -z } else { z };
            let m = if ax > az { ax } else { az };
            let ghost before_push = out@;
            if m == radius {
                out.push((center_x + x, center_z + z));
                proof {
                    assert forall|a: int, b: int| on_ring(a, b, radius as int) && (a < x || (a == x && b < z + 1)) implies
                        #[trigger] out@.contains(((center.x + a) as i32, (center.z + b) as i32)) by {
                        if a == x && b == z {
                            assert(out@[out@.len() - 1] == ((center.x + a) as i32, (center.z + b) as i32));
                        } else {
                            let c = ((center.x + a) as i32, (center.z + b) as i32);
                            assert(before_push.contains(c));
                            let k = choose|k: int| 0 <= k < before_push.len() && before_push[k] == c;
                            assert(out@[k] == before_push[k]);
                        }
                    }
                }
            } else {
                proof {
                    assert forall|a: int, b: int| on_ring(a, b, radius as int) && (a < x || (a == x && b < z + 1)) implies
                        #[trigger] out@.contains(((center.x + a) as i32, (center.z + b) as i32)) by {
                        if a == x && b == z {
                            assert(!on_ring(a, b, radius as int));
                        }
                    }
                }
            }
            z = z + 1;
        }
        x = x + 1;
    }
    out
}

/// Whether players may spawn on a block: anything but air, void air,
/// water and lava (any state of them).
pub open spec fn valid_spawn_surface(reg: Seq<BlockDataView>, id: u32) -> bool {
    !(id < reg.len() && {
        let n = seq_trim_start_matches(reg[id as int].0, "minecraft:"@);
        n == "air"@ || n == "void_air"@ || n == "water"@ || n == "lava"@
    })
}

/// Whether players may spawn on `block`: not air, void air, water or lava.
pub fn is_valid_spawn_surface(registry: &BlockRegistry, block: BlockStateId) -> (r: bool)
    ensures
        r == valid_spawn_surface(registry@, block.0),
{
    match registry.to_block_data(block) {
        None => true,
        Some(d) => {
            let full = chars_of(d.name.as_str());
            let n = trim_start_matches_lit(full.as_slice(), "minecraft:");
            !(eq_lit(n.as_slice(), "air") || eq_lit(n.as_slice(), "void_air") || eq_lit(n.as_slice(), "water")
                || eq_lit(n.as_slice(), "lava"))
        },
    }
}

/// `SliceRandom::shuffle` with the thread-local generator: the same
/// elements in an order picked at random.
#[verifier::external_body]
fn shuffle<T>(v: &mut Vec<T>)
    ensures
        final(v)@.to_multiset() == old(v)@.to_multiset(),
        final(v)@.len() == old(v)@.len(),
{
    v.shuffle(&mut rand::rng());
}

/// The chunks of the ring of `radius` around `center`, in random order.
pub fn shuffled_chunk_ring(center: ChunkPos, radius: i32) -> (r: Vec<(i32, i32)>)
    requires
        radius < i32::MAX,
        radius >= 0 ==> i32::MIN <= center.x - radius && center.x + radius <= i32::MAX,
        radius >= 0 ==> i32::MIN <= center.z - radius && center.z + radius <= i32::MAX,
    ensures
        forall|i: int| 0 <= i < r@.len() ==> on_ring(r@[i].0 - center.x, r@[i].1 - center.z, radius as int),
        forall|x: int, z: int| on_ring(x, z, radius as int) ==> #[trigger] r@.contains(((center.x + x) as i32, (center.z + z) as i32)),
        r@.no_duplicates(),
{
    let mut chunks = chunk_ring(center, radius);
    let ghost before_shuffle = chunks@;
    shuffle(&mut chunks);
    proof {
        broadcast use vstd::seq_lib::group_to_multiset_ensures;
        assert forall|i: int| 0 <= i < chunks@.len() implies on_ring(chunks@[i].0 - center.x, chunks@[i].1 - center.z, radius as int) by {
            assert(chunks@.to_multiset().count(chunks@[i]) > 0);
            assert(before_shuffle.to_multiset().count(chunks@[i]) > 0);
            assert(before_shuffle.contains(chunks@[i]));
        }
        assert forall|x: int, z: int| on_ring(x, z, radius as int) implies #[trigger] chunks@.contains(((center.x + x) as i32, (center.z + z) as i32)) by {
            let c = ((center.x + x) as i32, (center.z + z) as i32);
            assert(before_shuffle.contains(c));
            assert(before_shuffle.to_multiset().count(c) > 0);
        }
        assert forall|i: int, j: int| 0 <= i < before_shuffle.len() && 0 <= j < before_shuffle.len() && i != j
            implies before_shuffle[i] != before_shuffle[j] by {
            if i < j {
                assert(before(before_shuffle[i], before_shuffle[j]));
            } else {
                assert(before(before_shuffle[j], before_shuffle[i]));
            }
        }
        before_shuffle.lemma_multiset_has_no_duplicates();
        chunks@.lemma_multiset_has_no_duplicates_conv();
    }
    chunks
}


/// The surface of a chunk's columns: for column `(x, z)` (index
/// `16 * x + z`), the motion-blocking height and the block at that height.
pub struct ChunkSurface {
    heights: Vec<i16>,
    blocks: Vec<BlockStateId>,
}

impl ChunkSurface {
    #[verifier::type_invariant]
    closed spec fn all_columns(&self) -> bool {
        self.heights.len() == 256 && self.blocks.len() == 256
    }

    /// Height of column `(x, z)`.
    pub closed spec fn height(&self, x: int, z: int) -> i16 {
        self.heights@[16 * x + z]
    }

    /// Block at the top of column `(x, z)`.
    pub closed spec fn surface(&self, x: int, z: int) -> BlockStateId {
        self.blocks@[16 * x + z]
    }

    /// The surface with `heights[16 * x + z]` and `blocks[16 * x + z]` for
    /// column `(x, z)`.
    pub fn new(heights: Vec<i16>, blocks: Vec<BlockStateId>) -> (r: ChunkSurface)
        requires
            heights.len() == 256,
            blocks.len() == 256,
        ensures
            forall|x: int, z: int| 0 <= x < 16 && 0 <= z < 16 ==> #[trigger] r.height(x, z) == heights@[16 * x + z]
                && r.surface(x, z) == blocks@[16 * x + z],
    {
        ChunkSurface { heights, blocks }
    }

    fn column(&self, x: u8, z: u8) -> (r: (i16, BlockStateId))
        requires
            x < 16,
            z < 16,
        ensures
            r == (self.height(x as int, z as int), self.surface(x as int, z as int)),
    {
        proof {
            use_type_invariant(self);
        }
        let i = 16 * (x as usize) + z as usize;
        (self.heights[i], self.blocks[i])
    }
}

/// Where a player may spawn on column `(x, z)` of chunk `chunk_pos`: the
/// top block of the column, at world x `chunk_pos.x + x` and z
/// `chunk_pos.z + z`, when it is a valid surface.
pub open spec fn column_spawn(reg: Seq<BlockDataView>, chunk_pos: ChunkPos, chunk: &ChunkSurface, x: int, z: int) -> Option<BlockPos> {
    if valid_spawn_surface(reg, chunk.surface(x, z).0) {
        Some(BlockPos { x: (chunk_pos.x + x) as i32, y: chunk.height(x, z) as i32, z: (chunk_pos.z + z) as i32 })
    } else {
        None
    }
}

/// `p` is the spawn surface of one of the chunk's columns.
pub open spec fn from_column(reg: Seq<BlockDataView>, chunk_pos: ChunkPos, chunk: &ChunkSurface, p: BlockPos) -> bool {
    exists|x: int, z: int| 0 <= x < 16 && 0 <= z < 16 && #[trigger] column_spawn(reg, chunk_pos, chunk, x, z) == Some(p)
}

/// A column's spawn surface: for a column whose top block is a registered
/// state, there is one exactly when that block (without `minecraft:`) is not
/// air, void air, water or lava, in any of their states, and it is the top
/// block of the column at world x `chunk_pos.x + x` and z `chunk_pos.z + z`;
/// a column whose top block is not registered always has one.
pub proof fn lemma_column_spawn_surface(
    reg: Seq<BlockDataView>,
    chunk_pos: ChunkPos,
    chunk: &ChunkSurface,
    x: int,
    z: int,
)
    requires
        0 <= x < 16,
        0 <= z < 16,
        chunk_pos.x <= i32::MAX - 15,
        chunk_pos.z <= i32::MAX - 15,
    ensures
        ({
            let id = chunk.surface(x, z).0;
            let spawnable = id >= reg.len() || {
                let n = seq_trim_start_matches(reg[id as int].0, "minecraft:"@);
                !(n == "air"@ || n == "void_air"@ || n == "water"@ || n == "lava"@)
            };
            &&& spawnable ==> column_spawn(reg, chunk_pos, chunk, x, z) == Some(BlockPos {
                x: (chunk_pos.x + x) as i32,
                y: chunk.height(x, z) as i32,
                z: (chunk_pos.z + z) as i32,
            })
            &&& !spawnable ==> column_spawn(reg, chunk_pos, chunk, x, z) is None
            &&& column_spawn(reg, chunk_pos, chunk, x, z) matches Some(p) ==> p.x == chunk_pos.x + x
                && p.z == chunk_pos.z + z && p.y == chunk.height(x, z)
        }),
{
}

/// The surface block of column `(local_x, local_z)` that a player may
/// spawn above, if the surface is valid (the spawn position itself is half
/// a block in and one block up from it).
pub fn spawn_position_for_column(
    registry: &BlockRegistry,
    chunk_pos: ChunkPos,
    chunk: &ChunkSurface,
    local_x: u8,
    local_z: u8,
) -> (r: Option<BlockPos>)
    requires
        local_x < 16,
        local_z < 16,
        chunk_pos.x <= i32::MAX - 15,
        chunk_pos.z <= i32::MAX - 15,
    ensures
        r == column_spawn(registry@, chunk_pos, chunk, local_x as int, local_z as int),
{
    let (height, candidate_block) = chunk.column(local_x, local_z);
    if !is_valid_spawn_surface(registry, candidate_block) {
        return None;
    }
    let world_x = chunk_pos.x + local_x as i32;
    let world_z = chunk_pos.z + local_z as i32;
    Some(BlockPos::of(world_x, height as i32, world_z))
}

/// A bounded first-in first-out queue of spawn surfaces.
pub struct SpawnQueue {
    items: Vec<BlockPos>,
    capacity: usize,
}

impl View for SpawnQueue {
    type V = Seq<BlockPos>;

    closed spec fn view(&self) -> Seq<BlockPos> {
        self.items@
    }
}

impl SpawnQueue {
    #[verifier::type_invariant]
    closed spec fn within_capacity(&self) -> bool {
        self.items.len() <= self.capacity
    }

    /// Most positions the queue holds.
    pub closed spec fn capacity(&self) -> nat {
        self.capacity as nat
    }

    /// An empty queue holding at most `capacity` positions.
    pub fn new(capacity: usize) -> (r: SpawnQueue)
        ensures
            r@.len() == 0,
            r.capacity() == capacity,
    {
        SpawnQueue { items: Vec::new(), capacity }
    }

    /// Whether the queue holds `capacity` positions.
    pub fn is_full(&self) -> (r: bool)
        ensures
            r == (self@.len() >= self.capacity()),
            self@.len() <= self.capacity(),
    {
        proof {
            use_type_invariant(self);
        }
        self.items.len() >= self.capacity
    }

    /// Whether the queue is empty.
    pub fn is_empty(&self) -> (r: bool)
        ensures
            r == (self@.len() == 0),
    {
        self.items.len() == 0
    }

    /// Appends `p`; an error (and no change) when the queue is full.
    pub fn push(&mut self, p: BlockPos) -> (r: Result<(), BlockPos>)
        ensures
            final(self).capacity() == old(self).capacity(),
            old(self)@.len() < old(self).capacity() ==> r is Ok && final(self)@ == old(self)@.push(p),
            old(self)@.len() >= old(self).capacity() ==> r == Err::<(), BlockPos>(p) && final(self)@ == old(self)@,
    {
        proof {
            use_type_invariant(&*self);
        }
        if self.items.len() >= self.capacity {
            return Err(p);
        }
        let mut items: Vec<BlockPos> = Vec::new();
        std::mem::swap(&mut items, &mut self.items);
        items.push(p);
        self.items = items;
        Ok(())
    }

    /// Removes and returns the oldest position.
    pub fn pop(&mut self) -> (r: Option<BlockPos>)
        ensures
            final(self).capacity() == old(self).capacity(),
            old(self)@.len() == 0 ==> r is None && final(self)@ == old(self)@,
            old(self)@.len() > 0 ==> r == Some(old(self)@[0]) && final(self)@ == old(self)@.drop_first(),
    {
        proof {
            use_type_invariant(&*self);
        }
        if self.items.len() == 0 {
            return None;
        }
        let mut items: Vec<BlockPos> = Vec::new();
        std::mem::swap(&mut items, &mut self.items);
        let p = items.remove(0);
        self.items = items;
        proof {
            assert(self.items@ =~= old(self)@.drop_first());
        }
        Some(p)
    }
}

/// The 256 columns `(x, z)` of a chunk, x-major.
fn column_coords() -> (r: Vec<(u8, u8)>)
    ensures
        r@.len() == 256,
        forall|i: int| 0 <= i < 256 ==> #[trigger] r@[i] == ((i / 16) as u8, (i % 16) as u8),
{
    let mut coords: Vec<(u8, u8)> = Vec::new();
    let mut x: u8 = 0;
    while x < 16
        invariant
            x <= 16,
            coords@.len() == 16 * x,
            forall|i: int| 0 <= i < coords@.len() ==> #[trigger] coords@[i] == ((i / 16) as u8, (i % 16) as u8),
        decreases 16 - x,
    {
        let mut z: u8 = 0;
        while z < 16
            invariant
                x < 16,
                z <= 16,
                coords@.len() == 16 * x + z,
                forall|i: int| 0 <= i < coords@.len() ==> #[trigger] coords@[i] == ((i / 16) as u8, (i % 16) as u8),
            decreases 16 - z,
        {
            proof {
                let i = 16 * x + z;
                assert(i / 16 == x as int && i % 16 == z as int) by (nonlinear_arith)
                    requires i == 16 * x + z, 0 <= z < 16;
            }
            coords.push((x, z));
            z = z + 1;
        }
        x = x + 1;
    }
    coords
}

/// A reordering of the 256 columns lists each column once.
proof fn lemma_columns_distinct(ordered: Seq<(u8, u8)>, coords: Seq<(u8, u8)>)
    requires
        ordered.len() == 256,
        forall|i: int| 0 <= i < 256 ==> #[trigger] ordered[i] == ((i / 16) as u8, (i % 16) as u8),
        coords.to_multiset() == ordered.to_multiset(),
    ensures
        coords.no_duplicates(),
{
    assert forall|i: int, j: int| 0 <= i < ordered.len() && 0 <= j < ordered.len() && i != j implies ordered[i] != ordered[j] by {
        assert(ordered[i] == ((i / 16) as u8, (i % 16) as u8));
        assert(ordered[j] == ((j / 16) as u8, (j % 16) as u8));
        assert(0 <= i / 16 < 16 && 0 <= j / 16 < 16) by (nonlinear_arith)
            requires 0 <= i < 256, 0 <= j < 256;
        if i / 16 == j / 16 && i % 16 == j % 16 {
            assert(i == j) by (nonlinear_arith)
                requires i / 16 == j / 16, i % 16 == j % 16, 0 <= i, 0 <= j;
        }
    }
    ordered.lemma_multiset_has_no_duplicates();
    coords.lemma_multiset_has_no_duplicates_conv();
}

/// The spawn surfaces of the columns `order[0..k]`, in that order, where
/// the column is a valid surface.
pub open spec fn spawns_in_order(
    reg: Seq<BlockDataView>,
    chunk_pos: ChunkPos,
    chunk: &ChunkSurface,
    order: Seq<(u8, u8)>,
    k: int,
) -> Seq<BlockPos>
    decreases k,
{
    if k <= 0 {
        Seq::empty()
    } else {
        let prev = spawns_in_order(reg, chunk_pos, chunk, order, k - 1);
        match column_spawn(reg, chunk_pos, chunk, order[k - 1].0 as int, order[k - 1].1 as int) {
            Some(p) => prev.push(p),
            None => prev,
        }
    }
}

/// The surfaces of a shorter prefix of the order start those of a longer one.
proof fn lemma_spawns_prefix(
    reg: Seq<BlockDataView>,
    chunk_pos: ChunkPos,
    chunk: &ChunkSurface,
    order: Seq<(u8, u8)>,
    k: int,
    n: int,
)
    requires
        0 <= k <= n,
    ensures
        spawns_in_order(reg, chunk_pos, chunk, order, k).len() <= spawns_in_order(reg, chunk_pos, chunk, order, n).len(),
        spawns_in_order(reg, chunk_pos, chunk, order, n).take(spawns_in_order(reg, chunk_pos, chunk, order, k).len() as int)
            == spawns_in_order(reg, chunk_pos, chunk, order, k),
    decreases n - k,
{
    let sk = spawns_in_order(reg, chunk_pos, chunk, order, k);
    if k < n {
        lemma_spawns_prefix(reg, chunk_pos, chunk, order, k, n - 1);
        let sn1 = spawns_in_order(reg, chunk_pos, chunk, order, n - 1);
        let sn = spawns_in_order(reg, chunk_pos, chunk, order, n);
        assert(sn.take(sk.len() as int) =~= sn1.take(sk.len() as int));
    } else {
        assert(sk.take(sk.len() as int) =~= sk);
    }
}

/// Each surface of `order[0..k]` comes from one of those columns; every valid
/// one of those columns gives one; with no column twice, no surface repeats.
proof fn lemma_spawns_facts(
    reg: Seq<BlockDataView>,
    chunk_pos: ChunkPos,
    chunk: &ChunkSurface,
    order: Seq<(u8, u8)>,
    k: int,
)
    requires
        0 <= k <= order.len(),
        chunk_pos.x <= i32::MAX - 15,
        chunk_pos.z <= i32::MAX - 15,
        forall|i: int| 0 <= i < order.len() ==> (#[trigger] order[i]).0 < 16 && order[i].1 < 16,
    ensures
        ({
            let s = spawns_in_order(reg, chunk_pos, chunk, order, k);
            &&& forall|i: int| 0 <= i < s.len() ==> exists|j: int| 0 <= j < k
                && column_spawn(reg, chunk_pos, chunk, order[j].0 as int, order[j].1 as int) == Some(#[trigger] s[i])
            &&& forall|j: int| 0 <= j < k && (#[trigger] column_spawn(reg, chunk_pos, chunk, order[j].0 as int, order[j].1 as int)) is Some
                ==> s.contains(column_spawn(reg, chunk_pos, chunk, order[j].0 as int, order[j].1 as int)->0)
            &&& order.no_duplicates() ==> s.no_duplicates()
        }),
    decreases k,
{
    if k > 0 {
        lemma_spawns_facts(reg, chunk_pos, chunk, order, k - 1);
        let prev = spawns_in_order(reg, chunk_pos, chunk, order, k - 1);
        let s = spawns_in_order(reg, chunk_pos, chunk, order, k);
        let c = order[k - 1];
        let cs = column_spawn(reg, chunk_pos, chunk, c.0 as int, c.1 as int);
        assert forall|i: int| 0 <= i < s.len() implies exists|j: int| 0 <= j < k
            && column_spawn(reg, chunk_pos, chunk, order[j].0 as int, order[j].1 as int) == Some(#[trigger] s[i]) by {
            if i < prev.len() {
                assert(s[i] == prev[i]);
                let j = choose|j: int| 0 <= j < k - 1
                    && column_spawn(reg, chunk_pos, chunk, order[j].0 as int, order[j].1 as int) == Some(prev[i]);
            } else {
                assert(column_spawn(reg, chunk_pos, chunk, order[k - 1].0 as int, order[k - 1].1 as int) == Some(s[i]));
            }
        }
        assert forall|j: int| 0 <= j < k && (#[trigger] column_spawn(reg, chunk_pos, chunk, order[j].0 as int, order[j].1 as int)) is Some
            implies s.contains(column_spawn(reg, chunk_pos, chunk, order[j].0 as int, order[j].1 as int)->0) by {
            if j < k - 1 {
                let x = column_spawn(reg, chunk_pos, chunk, order[j].0 as int, order[j].1 as int)->0;
                let w = choose|w: int| 0 <= w < prev.len() && prev[w] == x;
                assert(s[w] == prev[w]);
            } else {
                assert(s[s.len() - 1] == cs->0);
            }
        }
        if order.no_duplicates() && cs is Some {
            assert forall|a: int, b: int| 0 <= a < s.len() && 0 <= b < s.len() && a != b implies s[a] != s[b] by {
                if a < prev.len() && b < prev.len() {
                    assert(s[a] == prev[a] && s[b] == prev[b]);
                } else {
                    let o = if a < prev.len() { a } else { b };
                    assert(s[o] == prev[o]);
                    let w = choose|w: int| 0 <= w < k - 1
                        && column_spawn(reg, chunk_pos, chunk, order[w].0 as int, order[w].1 as int) == Some(prev[o]);
                    assert(order[w] != order[k - 1]);
                    assert(order[w].0 < 16 && order[w].1 < 16);
                }
            }
        }
    }
}

/// Pushes onto `queue` the spawn surfaces of the columns `order` of this
/// chunk, in that order, until the queue is full. Returns how many were
/// pushed: all of them, or as many as there was room for.
pub fn enqueue_columns(
    registry: &BlockRegistry,
    chunk_pos: ChunkPos,
    chunk: &ChunkSurface,
    order: &Vec<(u8, u8)>,
    queue: &mut SpawnQueue,
) -> (r: usize)
    requires
        chunk_pos.x <= i32::MAX - 15,
        chunk_pos.z <= i32::MAX - 15,
        forall|i: int| 0 <= i < order@.len() ==> (#[trigger] order@[i]).0 < 16 && order@[i].1 < 16,
    ensures
        final(queue).capacity() == old(queue).capacity(),
        ({
            let all = spawns_in_order(registry@, chunk_pos, chunk, order@, order@.len() as int);
            let room = old(queue).capacity() - old(queue)@.len();
            &&& r == (if all.len() < room { all.len() as int } else { room })
            &&& final(queue)@ == old(queue)@ + all.take(r as int)
        }),
{
    let ghost start = queue@;
    let ghost n = order@.len() as int;
    proof {
        use_type_invariant(&*queue);
        assert(start + spawns_in_order(registry@, chunk_pos, chunk, order@, 0) =~= start);
    }
    let mut found: usize = 0;
    let mut k: usize = 0;
    while k < order.len()
        invariant
            chunk_pos.x <= i32::MAX - 15,
            chunk_pos.z <= i32::MAX - 15,
            forall|i: int| 0 <= i < order@.len() ==> (#[trigger] order@[i]).0 < 16 && order@[i].1 < 16,
            n == order@.len(),
            k <= n,
            start == old(queue)@,
            queue.capacity() == old(queue).capacity(),
            start.len() <= queue.capacity(),
            found == spawns_in_order(registry@, chunk_pos, chunk, order@, k as int).len(),
            queue@ == start + spawns_in_order(registry@, chunk_pos, chunk, order@, k as int),
        decreases n - k,
    {
        if queue.is_full() {
            proof {
                lemma_spawns_prefix(registry@, chunk_pos, chunk, order@, k as int, n);
            }
            return found;
        }
        let (x, z) = order[k];
        let ghost before = queue@;
        if let Some(position) = spawn_position_for_column(registry, chunk_pos, chunk, x, z) {
            match queue.push(position) {
                Ok(()) => {},
                Err(_) => {
                    assert(false);
                },
            }
            found = found + 1;
        }
        proof {
            assert(queue@ =~= start + spawns_in_order(registry@, chunk_pos, chunk, order@, k as int + 1));
        }
        k = k + 1;
    }
    proof {
        use_type_invariant(&*queue);
        let all = spawns_in_order(registry@, chunk_pos, chunk, order@, n);
        assert(all.take(found as int) =~= all);
    }
    found
}

/// Pushes onto `queue` the spawn surfaces of this chunk's columns, taken in
/// random order (see `enqueue_columns`), until the queue is full. Returns
/// how many were pushed.
pub fn enqueue_spawn_positions_from_chunk(
    registry: &BlockRegistry,
    chunk_pos: ChunkPos,
    chunk: &ChunkSurface,
    queue: &mut SpawnQueue,
) -> (r: usize)
    requires
        chunk_pos.x <= i32::MAX - 15,
        chunk_pos.z <= i32::MAX - 15,
    ensures
        final(queue).capacity() == old(queue).capacity(),
        final(queue)@.len() == old(queue)@.len() + r,
        final(queue)@.subrange(0, old(queue)@.len() as int) == old(queue)@,
        forall|i: int| old(queue)@.len() <= i < final(queue)@.len() ==> #[trigger] from_column(registry@, chunk_pos, chunk, final(queue)@[i]),
        forall|i: int, j: int| old(queue)@.len() <= i < j < final(queue)@.len() ==> #[trigger] final(queue)@[i] != #[trigger] final(queue)@[j],
        final(queue)@.len() < final(queue).capacity() ==> forall|x: int, z: int| 0 <= x < 16 && 0 <= z < 16
            && (#[trigger] column_spawn(registry@, chunk_pos, chunk, x, z)) is Some ==>
            final(queue)@.contains(column_spawn(registry@, chunk_pos, chunk, x, z)->0),
{
    let mut coords = column_coords();
    let ghost ordered = coords@;
    shuffle(&mut coords);
    let ghost start = queue@;
    proof {
        broadcast use vstd::seq_lib::group_to_multiset_ensures;
        assert forall|i: int| 0 <= i < coords@.len() implies 0 <= (#[trigger] coords@[i]).0 < 16 && 0 <= coords@[i].1 < 16 by {
            assert(coords@.contains(coords@[i]));
            vstd::seq_lib::to_multiset_contains(coords@, coords@[i]);
            vstd::seq_lib::to_multiset_contains(ordered, coords@[i]);
            assert(ordered.contains(coords@[i]));
            let w = choose|w: int| 0 <= w < ordered.len() && ordered[w] == coords@[i];
            assert(ordered[w] == ((w / 16) as u8, (w % 16) as u8));
        }
        lemma_columns_distinct(ordered, coords@);
    }
    let r = enqueue_columns(registry, chunk_pos, chunk, &coords, queue);
    proof {
        let all = spawns_in_order(registry@, chunk_pos, chunk, coords@, coords@.len() as int);
        lemma_spawns_facts(registry@, chunk_pos, chunk, coords@, coords@.len() as int);
        let added = all.take(r as int);
        assert(queue@.subrange(0, start.len() as int) =~= start);
        assert forall|i: int| start.len() <= i < queue@.len() implies #[trigger] from_column(registry@, chunk_pos, chunk, queue@[i]) by {
            assert(queue@[i] == all[i - start.len()]);
            let j = choose|j: int| 0 <= j < coords@.len()
                && column_spawn(registry@, chunk_pos, chunk, coords@[j].0 as int, coords@[j].1 as int) == Some(all[i - start.len()]);
            assert(column_spawn(registry@, chunk_pos, chunk, coords@[j].0 as int, coords@[j].1 as int) == Some(queue@[i]));
        }
        assert forall|i: int, j: int| start.len() <= i < j < queue@.len() implies #[trigger] queue@[i] != #[trigger] queue@[j] by {
            assert(queue@[i] == all[i - start.len()]);
            assert(queue@[j] == all[j - start.len()]);
        }
        if queue@.len() < queue.capacity() {
            assert(r == all.len());
            assert(added =~= all);
            assert forall|x: int, z: int| 0 <= x < 16 && 0 <= z < 16
                && (#[trigger] column_spawn(registry@, chunk_pos, chunk, x, z)) is Some implies
                queue@.contains(column_spawn(registry@, chunk_pos, chunk, x, z)->0) by {
                broadcast use vstd::seq_lib::group_to_multiset_ensures;
                let i = 16 * x + z;
                assert(i / 16 == x && i % 16 == z) by (nonlinear_arith)
                    requires i == 16 * x + z, 0 <= z < 16;
                assert(ordered[i] == (x as u8, z as u8));
                assert(ordered.contains((x as u8, z as u8)));
                vstd::seq_lib::to_multiset_contains(coords@, (x as u8, z as u8));
                vstd::seq_lib::to_multiset_contains(ordered, (x as u8, z as u8));
                assert(coords@.contains((x as u8, z as u8)));
                let j = choose|j: int| 0 <= j < coords@.len() && coords@[j] == (x as u8, z as u8);
                assert(column_spawn(registry@, chunk_pos, chunk, coords@[j].0 as int, coords@[j].1 as int) is Some);
                let c = column_spawn(registry@, chunk_pos, chunk, x, z)->0;
                assert(all.contains(c));
                let w = choose|w: int| 0 <= w < all.len() && all[w] == c;
                assert(queue@[start.len() + w] == c);
            }
        }
    }
    r
}

/// What the spawn-position generator does next.
#[derive(Clone, Copy, Debug, PartialEq, Eq, Structural)]
pub enum SpawnSearchStep {
    /// The queue is full: stop.
    Done,
    /// The time budget is spent: stop, to go on next run.
    OutOfTime,
    /// Search the next chunk (or ring of chunks).
    Search,
    /// Every ring was searched: fall back to the default spawn point.
    Fallback,
}

/// The generator's decision before it searches another chunk or ring: stop
/// when the queue is full, else when the time budget is spent; else search
/// on while rings are left, and fall back after the last one.
pub fn spawn_search_step(queue_full: bool, out_of_time: bool, rings_left: bool) -> (r: SpawnSearchStep)
    ensures
        r == (if queue_full {
            SpawnSearchStep::Done
        } else if out_of_time {
            SpawnSearchStep::OutOfTime
        } else if rings_left {
            SpawnSearchStep::Search
        } else {
            SpawnSearchStep::Fallback
        }),
{
    if queue_full {
        SpawnSearchStep::Done
    } else if out_of_time {
        SpawnSearchStep::OutOfTime
    } else if rings_left {
        SpawnSearchStep::Search
    } else {
        SpawnSearchStep::Fallback
    }
}

} // verus!
