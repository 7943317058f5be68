//! Pathfinding penalties of block states, after the Minecraft wiki's penalty
//! system.

use vstd::prelude::*;
use crate::blocks::{BlockDataView, BlockRegistry, BlockStateId};
use crate::text::{chars_of, ends_with_lit, eq_lit, seq_ends_with, seq_trim_start_matches, trim_start_matches_lit};

verus! {

/// Sentinel penalty: the block cannot be traversed.
pub const IMPASSABLE: i32 = i32::MIN;

/// Names of blocks that mobs walk through.
pub open spec fn non_solid_name(n: Seq<char>) -> bool {
    ||| n == "grass"@ || n == "short_grass"@ || n == "tall_grass"@ || n == "fern"@
    ||| n == "large_fern"@ || n == "dead_bush"@ || n == "lily_pad"@ || n == "big_dripleaf"@
    ||| n == "small_dripleaf"@ || n == "snow"@ || n == "string"@ || n == "nether_portal"@
    ||| n == "spore_blossom"@ || n == "glow_lichen"@ || n == "dandelion"@ || n == "poppy"@
    ||| n == "blue_orchid"@ || n == "allium"@ || n == "azure_bluet"@ || n == "oxeye_daisy"@
    ||| n == "cornflower"@ || n == "lily_of_the_valley"@ || n == "wither_rose"@ || n == "sunflower"@
    ||| n == "lilac"@ || n == "rose_bush"@ || n == "peony"@ || n == "torchflower"@
    ||| n == "pitcher_plant"@ || n == "pitcher_pod"@
    ||| seq_ends_with(n, "_button"@) || seq_ends_with(n, "_pressure_plate"@)
    ||| seq_ends_with(n, "_sign"@) || seq_ends_with(n, "_banner"@) || seq_ends_with(n, "_carpet"@)
    ||| seq_ends_with(n, "_torch"@) || seq_ends_with(n, "_sapling"@) || seq_ends_with(n, "_mushroom"@)
    ||| seq_ends_with(n, "_flower"@) || seq_ends_with(n, "_vine"@) || seq_ends_with(n, "_roots"@)
    ||| n == "vine"@ || n == "sugar_cane"@ || seq_ends_with(n, "_vines"@) || seq_ends_with(n, "_vines_plant"@)
}

/// Whether the block's property `key` is `"true"`.
pub open spec fn flag_set(d: BlockDataView, key: Seq<char>) -> bool {
    d.1 matches Some(m) && m.contains_key(key) && m[key] == "true"@
}

/// Whether the block's `open` property is `"true"`.
pub open spec fn open_flag(d: BlockDataView) -> bool {
    flag_set(d, "open"@)
}

/// Penalty of a registered block state's data.
#[verifier::opaque]
pub open spec fn data_penalty(d: BlockDataView) -> i32 {
    let n = seq_trim_start_matches(d.0, "minecraft:"@);
    if seq_ends_with(n, "air"@) {
        0
    } else if n == "fire"@ || n == "soul_fire"@ || n == "magma_block"@ {
        16
    } else if n == "campfire"@ || seq_ends_with(n, "_campfire"@) {
        if flag_set(d, "lit"@) { 16 } else { IMPASSABLE }
    } else if n == "lava"@ {
        IMPASSABLE
    } else if n == "water"@ || n == "bubble_column"@ || n == "honey_block"@ {
        8
    } else if n == "cactus"@ || n == "sweet_berry_bush"@ || n == "cobweb"@ || n == "powder_snow"@ {
        IMPASSABLE
    } else if seq_ends_with(n, "_fence"@) || seq_ends_with(n, "_wall"@) {
        IMPASSABLE
    } else if seq_ends_with(n, "_door"@) || seq_ends_with(n, "_fence_gate"@) || seq_ends_with(n, "_trapdoor"@) {
        if open_flag(d) { 0 } else { IMPASSABLE }
    } else if non_solid_name(n) {
        0
    } else {
        IMPASSABLE
    }
}

/// Penalty of block state `id`: 0 for air (id 0), `IMPASSABLE` for an id
/// that names no registered state, else that of its data.
pub open spec fn penalty_of(reg: Seq<BlockDataView>, id: u32) -> i32 {
    if id == 0 {
        0
    } else if id >= reg.len() {
        IMPASSABLE
    } else {
        data_penalty(reg[id as int])
    }
}

/// Every penalty is `IMPASSABLE` or one of 0, 8, 16.
pub proof fn lemma_penalty_values(reg: Seq<BlockDataView>, id: u32)
    ensures
        penalty_of(reg, id) == IMPASSABLE || penalty_of(reg, id) == 0
            || penalty_of(reg, id) == 8 || penalty_of(reg, id) == 16,
{
    reveal(data_penalty);
}

/// Names that differ in their last character are different, and neither
/// ends with the other.
proof fn lemma_last_char_differs(n: Seq<char>, m: Seq<char>)
    requires
        n.len() > 0,
        m.len() > 0,
        n.last() != m.last(),
    ensures
        n != m,
        !seq_ends_with(n, m),
{
    if seq_ends_with(n, m) {
        assert(n.subrange(n.len() - m.len(), n.len() as int)[m.len() - 1] == n.last());
    }
}

/// The penalty of a door, fence gate or trapdoor (a registered state whose
/// name, without `minecraft:`, ends in `_door`, `_fence_gate` or
/// `_trapdoor`): 0 when its `open` property is `"true"`, else impassable.
pub proof fn lemma_openable_penalty(reg: Seq<BlockDataView>, id: u32)
    requires
        id != 0,
        id < reg.len(),
        ({
            let n = seq_trim_start_matches(reg[id as int].0, "minecraft:"@);
            seq_ends_with(n, "_door"@) || seq_ends_with(n, "_fence_gate"@) || seq_ends_with(n, "_trapdoor"@)
        }),
    ensures
        penalty_of(reg, id) == if flag_set(reg[id as int], "open"@) { 0 } else { IMPASSABLE },
{
    reveal(data_penalty);
    let n = seq_trim_start_matches(reg[id as int].0, "minecraft:"@);
    reveal_strlit("_door");
    reveal_strlit("_fence_gate");
    reveal_strlit("_trapdoor");
    reveal_strlit("open");
    let l = n.len();
    // Each of the three suffixes ends in `r` or `e`, with an `o` or `t` before it.
    if seq_ends_with(n, "_door"@) {
        assert(n.subrange(l - 5, l as int)[4] == n[l - 1]);
        assert(n.subrange(l - 5, l as int)[2] == n[l - 3]);
        assert(n.last() == 'r' && n[l - 3] == 'o');
    } else if seq_ends_with(n, "_trapdoor"@) {
        assert(n.subrange(l - 9, l as int)[8] == n[l - 1]);
        assert(n.subrange(l - 9, l as int)[6] == n[l - 3]);
        assert(n.last() == 'r' && n[l - 3] == 'o');
    } else {
        assert(n.subrange(l - 11, l as int)[10] == n[l - 1]);
        assert(n.subrange(l - 11, l as int)[8] == n[l - 3]);
        assert(n.subrange(l - 11, l as int)[6] == n[l - 5]);
        assert(n.last() == 'e' && n[l - 3] == 'a' && n[l - 5] == '_');
    }
    assert(l >= 5);
    reveal_strlit("air");
    if seq_ends_with(n, "air"@) {
        assert(n.subrange(l - 3, l as int)[0] == n[l - 3]);
        assert(n.subrange(l - 3, l as int)[2] == n[l - 1]);
    }
    reveal_strlit("fire");
    reveal_strlit("soul_fire");
    reveal_strlit("magma_block");
    reveal_strlit("campfire");
    reveal_strlit("_campfire");
    reveal_strlit("lava");
    reveal_strlit("water");
    reveal_strlit("bubble_column");
    reveal_strlit("honey_block");
    reveal_strlit("cactus");
    reveal_strlit("sweet_berry_bush");
    reveal_strlit("cobweb");
    reveal_strlit("powder_snow");
    reveal_strlit("_fence");
    reveal_strlit("_wall");
    lemma_last_char_differs(n, "magma_block"@);
    lemma_last_char_differs(n, "lava"@);
    lemma_last_char_differs(n, "bubble_column"@);
    lemma_last_char_differs(n, "honey_block"@);
    lemma_last_char_differs(n, "cactus"@);
    lemma_last_char_differs(n, "sweet_berry_bush"@);
    lemma_last_char_differs(n, "cobweb"@);
    lemma_last_char_differs(n, "powder_snow"@);
    lemma_last_char_differs(n, "_wall"@);
    if n.last() == 'r' {
        lemma_last_char_differs(n, "fire"@);
        lemma_last_char_differs(n, "soul_fire"@);
        lemma_last_char_differs(n, "campfire"@);
        lemma_last_char_differs(n, "_campfire"@);
        lemma_last_char_differs(n, "_fence"@);
        if n == "water"@ {
            assert(n[l - 3] == 't');
        }
    } else {
        // `_fence_gate`: its fifth-last character `_` rules out the rest.
        if n == "fire"@ || n == "campfire"@ || n == "soul_fire"@ {
            assert(n[l - 3] == 'i');
        }
        if seq_ends_with(n, "_campfire"@) {
            assert(n.subrange(l - 9, l as int)[6] == n[l - 3]);
        }
        if seq_ends_with(n, "_fence"@) {
            assert(n.subrange(l - 6, l as int)[3] == n[l - 3]);
        }
        lemma_last_char_differs(n, "water"@);
    }
}

/// Returns the pathfinding penalty for a block state:
/// `IMPASSABLE` for solid blocks, fences, walls, closed doors, cactus, lava and
/// the like; 0 for air, open doors and trapdoors, and vegetation; 8 for water,
/// bubble columns and honey blocks; 16 for fire, soul fire, magma and lit
/// campfires (an unlit campfire is a solid block).
pub fn block_penalty(registry: &BlockRegistry, id: BlockStateId) -> (r: i32)
    ensures
        r == penalty_of(registry@, id.0),
{
    reveal(data_penalty);
    if id.raw() == 0 {
        return 0;
    }
    let data = match registry.to_block_data(id) {
        Some(d) => d,
        None => return IMPASSABLE,
    };
    let full = chars_of(data.name.as_str());
    let name = trim_start_matches_lit(full.as_slice(), "minecraft:");
    let n = name.as_slice();
    if ends_with_lit(n, "air") {
        return 0;
    }
    if eq_lit(n, "fire") || eq_lit(n, "soul_fire") || eq_lit(n, "magma_block") {
        return 16;
    }
    if eq_lit(n, "campfire") || ends_with_lit(n, "_campfire") {
        return if is_flag_true(data, "lit") { 16 } else { IMPASSABLE };
    }
    if eq_lit(n, "lava") {
        return IMPASSABLE;
    }
    if eq_lit(n, "water") || eq_lit(n, "bubble_column") || eq_lit(n, "honey_block") {
        return 8;
    }
    if eq_lit(n, "cactus") || eq_lit(n, "sweet_berry_bush") || eq_lit(n, "cobweb") || eq_lit(n, "powder_snow") {
        return IMPASSABLE;
    }
    if ends_with_lit(n, "_fence") || ends_with_lit(n, "_wall") {
        return IMPASSABLE;
    }
    if ends_with_lit(n, "_door") || ends_with_lit(n, "_fence_gate") {
        let open = is_flag_true(data, "open");
        return if open { 0 } else { IMPASSABLE };
    }
    if ends_with_lit(n, "_trapdoor") {
        let open = is_flag_true(data, "open");
        return if open { 0 } else { IMPASSABLE };
    }
    if is_non_solid_chars(n) {
        return 0;
    }
    IMPASSABLE
}

/// Whether the block's property `key` is `"true"`; false when it has no
/// properties or no such property.
fn is_flag_true(data: &crate::blocks::BlockData, key: &str) -> (r: bool)
    ensures
        r == flag_set(data@, key@),
{
    match &data.properties {
        Some(p) => match p.get(key) {
            Some(v) => {
                let c = chars_of(v.as_str());
                eq_lit(c.as_slice(), "true")
            },
            None => false,
        },
        None => false,
    }
}

/// Whether a block with this (namespace-free) name is one mobs walk through:
/// grasses, flowers, snow layers, buttons, pressure plates, signs, banners,
/// carpets, torches, saplings, mushrooms, vines, sugar cane and roots.
pub fn is_non_solid(name: &str) -> (r: bool)
    ensures
        r == non_solid_name(name@),
{
    let n = chars_of(name);
    is_non_solid_chars(n.as_slice())
}

fn is_non_solid_chars(n: &[char]) -> (r: bool)
    ensures
        r == non_solid_name(n@),
{
    if eq_lit(n, "grass") || eq_lit(n, "short_grass") || eq_lit(n, "tall_grass") || eq_lit(n, "fern")
        || eq_lit(n, "large_fern") || eq_lit(n, "dead_bush") || eq_lit(n, "lily_pad")
        || eq_lit(n, "big_dripleaf") || eq_lit(n, "small_dripleaf") || eq_lit(n, "snow")
        || eq_lit(n, "string") || eq_lit(n, "nether_portal") || eq_lit(n, "spore_blossom")
        || eq_lit(n, "glow_lichen") || eq_lit(n, "dandelion") || eq_lit(n, "poppy")
        || eq_lit(n, "blue_orchid") || eq_lit(n, "allium") || eq_lit(n, "azure_bluet")
        || eq_lit(n, "oxeye_daisy") || eq_lit(n, "cornflower") || eq_lit(n, "lily_of_the_valley")
        || eq_lit(n, "wither_rose") || eq_lit(n, "sunflower") || eq_lit(n, "lilac")
        || eq_lit(n, "rose_bush") || eq_lit(n, "peony") || eq_lit(n, "torchflower")
        || eq_lit(n, "pitcher_plant") || eq_lit(n, "pitcher_pod") {
        return true;
    }
    ends_with_lit(n, "_button") || ends_with_lit(n, "_pressure_plate") || ends_with_lit(n, "_sign")
        || ends_with_lit(n, "_banner") || ends_with_lit(n, "_carpet") || ends_with_lit(n, "_torch")
        || ends_with_lit(n, "_sapling") || ends_with_lit(n, "_mushroom") || ends_with_lit(n, "_flower")
        || ends_with_lit(n, "_vine") || ends_with_lit(n, "_roots")
        || eq_lit(n, "vine") || eq_lit(n, "sugar_cane") || ends_with_lit(n, "_vines")
        || ends_with_lit(n, "_vines_plant")
}

/// Blocks that are impassable yet no floor to stand on: lava, cactus, sweet
/// berry bushes, cobwebs and powder snow.
pub open spec fn hazard_name(n: Seq<char>) -> bool {
    n == "lava"@ || n == "cactus"@ || n == "sweet_berry_bush"@ || n == "cobweb"@ || n == "powder_snow"@
}

/// Whether block state `id` is a solid block a mob can stand on: it is
/// impassable and not a hazard.
pub open spec fn solid_floor(reg: Seq<BlockDataView>, id: u32) -> bool {
    &&& penalty_of(reg, id) == IMPASSABLE
    &&& !(id < reg.len() && hazard_name(seq_trim_start_matches(reg[id as int].0, "minecraft:"@)))
}

/// Whether block state `id` is a solid block a mob can stand on: impassable
/// (see `block_penalty`) and not lava, cactus, a sweet berry bush, a cobweb or
/// powder snow.
pub fn is_solid_floor(registry: &BlockRegistry, id: BlockStateId) -> (r: bool)
    ensures
        r == solid_floor(registry@, id.0),
{
    if block_penalty(registry, id) != IMPASSABLE {
        return false;
    }
    match registry.to_block_data(id) {
        None => true,
        Some(data) => {
            let full = chars_of(data.name.as_str());
            let name = trim_start_matches_lit(full.as_slice(), "minecraft:");
            let n = name.as_slice();
            !(eq_lit(n, "lava") || eq_lit(n, "cactus") || eq_lit(n, "sweet_berry_bush") || eq_lit(n, "cobweb")
                || eq_lit(n, "powder_snow"))
        },
    }
}

} // verus!
