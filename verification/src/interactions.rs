//! Direct block interactions in the world: toggling doors and the other
//! half of a door, breaking a door with its pair, and who sees the update.

use vstd::prelude::*;
use crate::blocks::{state_id_for, BlockData, BlockDataView, BlockRegistry, BlockStateId};
use crate::text::{chars_of, ends_with_lit, eq_lit, seq_ends_with};
use crate::world::{BlockPos, Terrain};

verus! {

/// Type of interaction for a block.
#[derive(Debug, Clone, Copy)]
pub enum InteractionType {
    /// The block toggles between two states (doors); the string is the
    /// property to toggle.
    Toggleable(&'static str),
}

/// Result of attempting to interact with a block.
#[derive(Debug, Clone, Copy)]
pub enum InteractionResult {
    /// The block was toggled; its new state.
    Toggled(BlockStateId),
    /// The block is not interactive.
    NotInteractive,
    /// The block state has no data, or an interactive block has no properties.
    InvalidBlock,
}

/// Whether a block with this name is interactive (doors are).
pub open spec fn is_door_name(name: Seq<char>) -> bool {
    seq_ends_with(name, "_door"@)
}

/// The new value of a toggled property: `"false"` when it was `"true"`,
/// else (any other value, or none) `"true"`.
pub open spec fn toggled_value(m: Map<Seq<char>, Seq<char>>, prop: Seq<char>) -> Seq<char> {
    if m.contains_key(prop) && m[prop] == "true"@ { "false"@ } else { "true"@ }
}

/// Block data with property `open` toggled.
pub open spec fn toggle_open(d: BlockDataView) -> BlockDataView {
    match d.1 {
        Some(m) => (d.0, Some(m.insert("open"@, toggled_value(m, "open"@)))),
        None => d,
    }
}

/// What interacting with block state `id` gives.
pub open spec fn interaction_outcome(reg: Seq<BlockDataView>, id: u32) -> InteractionResult {
    if id >= reg.len() {
        InteractionResult::InvalidBlock
    } else if !is_door_name(reg[id as int].0) {
        InteractionResult::NotInteractive
    } else if reg[id as int].1 is None {
        InteractionResult::InvalidBlock
    } else {
        InteractionResult::Toggled(BlockStateId(state_id_for(reg, toggle_open(reg[id as int]))))
    }
}

/// Checks if a block is interactive and returns its interaction type.
pub fn get_interaction_type(block_data: &BlockData) -> (r: Option<InteractionType>)
    ensures
        r is Some <==> is_door_name(block_data.name@),
        r matches Some(InteractionType::Toggleable(p)) ==> p@ == "open"@,
{
    let name = chars_of(block_data.name.as_str());
    // Doors
    if ends_with_lit(name.as_slice(), "_door") {
        return Some(InteractionType::Toggleable("open"));
    }
    None
}

/// Attempts to interact with a block and returns the new state if
/// successful: looks up the block's data, checks that it is interactive,
/// toggles its property and looks the new data up again (air when no
/// registered state has it).
pub fn try_interact(registry: &BlockRegistry, block_state_id: BlockStateId) -> (r: InteractionResult)
    ensures
        r == interaction_outcome(registry@, block_state_id.0),
{
    let data = match registry.to_block_data(block_state_id) {
        Some(d) => d,
        None => return InteractionResult::InvalidBlock,
    };
    let interaction_type = match get_interaction_type(data) {
        Some(t) => t,
        None => return InteractionResult::NotInteractive,
    };
    let mut block_data = data.copy();
    let mut properties = match block_data.properties {
        Some(p) => p,
        None => return InteractionResult::InvalidBlock,
    };
    match interaction_type {
        InteractionType::Toggleable(prop_name) => {
            let is_true = match properties.get(prop_name) {
                Some(v) => {
                    let c = chars_of(v.as_str());
                    eq_lit(c.as_slice(), "true")
                },
                None => false,
            };
            let new_value = if is_true { "false" } else { "true" };
            properties.insert(prop_name.to_string(), new_value.to_string());
        },
    }
    let toggled = BlockData { name: block_data.name, properties: Some(properties) };
    let new_state_id = registry.from_block_data(&toggled);
    InteractionResult::Toggled(new_state_id)
}

/// Checks if a block is interactive without modifying it.
pub fn is_interactive(registry: &BlockRegistry, block_state_id: BlockStateId) -> (r: bool)
    ensures
        r == (block_state_id.0 < registry@.len() && is_door_name(registry@[block_state_id.0 as int].0)),
{
    match registry.to_block_data(block_state_id) {
        Some(d) => get_interaction_type(d).is_some(),
        None => false,
    }
}


/// Y offset from a door block to its other half: `+1` from the lower half,
/// `-1` from the upper half; `None` for anything that is not a door with a
/// `half` of `lower` or `upper`.
pub open spec fn door_offset(reg: Seq<BlockDataView>, id: u32) -> Option<i32> {
    if id < reg.len() {
        data_door_offset(reg[id as int])
    } else {
        None
    }
}

/// `door_offset` of a block's data.
pub open spec fn data_door_offset(d: BlockDataView) -> Option<i32> {
    if is_door_name(d.0) && d.1 is Some {
        let m = d.1->0;
        if m.contains_key("half"@) && m["half"@] == "lower"@ {
            Some(1i32)
        } else if m.contains_key("half"@) && m["half"@] == "upper"@ {
            Some(-1i32)
        } else {
            None
        }
    } else {
        None
    }
}

/// Given a block state, if it's a door, returns the Y offset to the other half.
/// Lower half -> +1, upper half -> -1, not a door -> None.
pub fn door_other_half_y_offset(registry: &BlockRegistry, block_state_id: BlockStateId) -> (r: Option<i32>)
    ensures
        r == door_offset(registry@, block_state_id.0),
{
    let data = registry.to_block_data(block_state_id)?;
    let name = chars_of(data.name.as_str());
    if !ends_with_lit(name.as_slice(), "_door") {
        return None;
    }
    let props = match &data.properties {
        Some(p) => p,
        None => return None,
    };
    let half = props.get("half")?;
    let h = chars_of(half.as_str());
    if eq_lit(h.as_slice(), "lower") {
        Some(1)
    } else if eq_lit(h.as_slice(), "upper") {
        Some(-1)
    } else {
        None
    }
}

/// The `open` state of a block: `Some(value == "true")` when it has an
/// `open` property.
pub open spec fn open_state(reg: Seq<BlockDataView>, id: u32) -> Option<bool> {
    if id < reg.len() && reg[id as int].1 is Some && (reg[id as int].1->0).contains_key("open"@) {
        Some((reg[id as int].1->0)["open"@] == "true"@)
    } else {
        None
    }
}

/// Gets the "open" state of a door/trapdoor/fence gate.
pub fn is_open(registry: &BlockRegistry, block_state_id: BlockStateId) -> (r: Option<bool>)
    ensures
        r == open_state(registry@, block_state_id.0),
{
    let block_data = registry.to_block_data(block_state_id)?;
    let properties = match &block_data.properties {
        Some(p) => p,
        None => return None,
    };
    let open_value = properties.get("open")?;
    let c = chars_of(open_value.as_str());
    Some(eq_lit(c.as_slice(), "true"))
}

/// `pos` moved vertically by `dy`.
pub open spec fn offset_y(pos: BlockPos, dy: i32) -> BlockPos {
    BlockPos { x: pos.x, y: (pos.y + dy) as i32, z: pos.z }
}

/// Positions broken with the block at `pos` (state `id`): `pos`, and the
/// other half when it is a door.
pub open spec fn broken_positions(reg: Seq<BlockDataView>, id: u32, pos: BlockPos) -> Seq<BlockPos> {
    match door_offset(reg, id) {
        Some(dy) => seq![pos, offset_y(pos, dy)],
        None => seq![pos],
    }
}

/// A block-broken notification.
#[derive(Clone, Copy, Debug, PartialEq, Eq, Structural)]
pub struct BlockBrokenEvent {
    pub position: BlockPos,
}

/// Breaks a block and its door-pair (if applicable).
/// Sets both positions to air and emits a `BlockBrokenEvent` for each.
/// Returns the list of all positions that were broken (always includes `pos`,
/// and may include the other door half).
pub fn break_block_with_door_half(
    chunk: &mut Terrain,
    pos: BlockPos,
    block_break_writer: &mut Vec<BlockBrokenEvent>,
) -> (r: Vec<BlockPos>)
    requires
        door_offset(old(chunk).registry@, old(chunk).block_id_at(pos.point())) matches Some(dy)
            ==> i32::MIN <= pos.y + dy <= i32::MAX,
    ensures
        r@ == broken_positions(old(chunk).registry@, old(chunk).block_id_at(pos.point()), pos),
        final(block_break_writer)@ == old(block_break_writer)@ + r@.map_values(|p: BlockPos| BlockBrokenEvent { position: p }),
        final(chunk).registry@ == old(chunk).registry@,
        forall|q: crate::world::Point| #[trigger] final(chunk).block_id_at(q) == if r@.map_values(|p: BlockPos| p.point()).contains(q) && old(chunk).loaded(q) {
            0
        } else {
            old(chunk).block_id_at(q)
        },
{
    let ghost c0 = *chunk;
    let ghost e0 = block_break_writer@;
    let current_state = chunk.block_at(pos.x, pos.y, pos.z);
    let other_half = match door_other_half_y_offset(&chunk.registry, current_state) {
        Some(y_off) => Some(BlockPos::of(pos.x, pos.y + y_off, pos.z)),
        None => None,
    };
    chunk.set_block(pos.x, pos.y, pos.z, BlockStateId::air());
    let ghost c1 = *chunk;
    proof {
        lemma_set_block_keeps_loaded(c0, c1);
    }
    block_break_writer.push(BlockBrokenEvent { position: pos });
    let mut broken = vec![pos];
    if let Some(other_pos) = other_half {
        chunk.set_block(other_pos.x, other_pos.y, other_pos.z, BlockStateId::air());
        proof {
            lemma_set_block_keeps_loaded(c1, *chunk);
        }
        block_break_writer.push(BlockBrokenEvent { position: other_pos });
        broken.push(other_pos);
        proof {
            let bs = broken@.map_values(|p: BlockPos| p.point());
            assert(bs[0] == pos.point() && bs[1] == other_pos.point());
            assert forall|q: crate::world::Point| #[trigger] chunk.block_id_at(q) == if bs.contains(q) && c0.loaded(q) {
                0
            } else {
                c0.block_id_at(q)
            } by {
                if bs.contains(q) {
                    let k = choose|k: int| 0 <= k < bs.len() && bs[k] == q;
                    assert(k == 0 || k == 1);
                }
            }
            assert(block_break_writer@ =~= e0 + broken@.map_values(|p: BlockPos| BlockBrokenEvent { position: p }));
        }
    } else {
        proof {
            let bs = broken@.map_values(|p: BlockPos| p.point());
            assert(bs[0] == pos.point());
            assert forall|q: crate::world::Point| #[trigger] chunk.block_id_at(q) == if bs.contains(q) && c0.loaded(q) {
                0
            } else {
                c0.block_id_at(q)
            } by {
                if bs.contains(q) {
                    let k = choose|k: int| 0 <= k < bs.len() && bs[k] == q;
                    assert(k == 0);
                }
                if q == pos.point() {
                    assert(bs.contains(q));
                }
            }
            assert(block_break_writer@ =~= e0 + broken@.map_values(|p: BlockPos| BlockBrokenEvent { position: p }));
        }
    }
    broken
}

/// Setting a block leaves the loaded cuboid as it was.
proof fn lemma_set_block_keeps_loaded(a: Terrain, b: Terrain)
    requires
        b.origin == a.origin,
        b.blocks@.len() == a.blocks@.len(),
        forall|i: int| 0 <= i < a.blocks@.len() ==> (#[trigger] b.blocks@[i])@.len() == a.blocks@[i]@.len(),
        forall|i: int, j: int| 0 <= i < a.blocks@.len() && 0 <= j < a.blocks@[i]@.len() ==>
            (#[trigger] b.blocks@[i]@[j])@.len() == a.blocks@[i]@[j]@.len(),
    ensures
        forall|q: crate::world::Point| #[trigger] b.loaded(q) == a.loaded(q),
{
    assert forall|q: crate::world::Point| #[trigger] b.loaded(q) == a.loaded(q) by {
        let i = q.0 - a.origin.x;
        let j = q.1 - a.origin.y;
        if 0 <= i < a.blocks@.len() {
            assert(b.blocks@[i]@.len() == a.blocks@[i]@.len());
            if 0 <= j < a.blocks@[i]@.len() {
                assert(b.blocks@[i]@[j]@.len() == a.blocks@[i]@[j]@.len());
            }
        }
    }
}


/// `b` is `a` with the block at `p` set to `id` (when `p` is loaded).
pub open spec fn set_at(a: Terrain, b: Terrain, p: crate::world::Point, id: u32) -> bool {
    &&& b.registry@ == a.registry@
    &&& forall|q: crate::world::Point| #[trigger] b.block_id_at(q) == if q == p && a.loaded(p) {
        id
    } else {
        a.block_id_at(q)
    }
}

/// `b` holds the same blocks as `a`.
pub open spec fn same_blocks(a: Terrain, b: Terrain) -> bool {
    &&& b.registry@ == a.registry@
    &&& forall|q: crate::world::Point| #[trigger] b.block_id_at(q) == a.block_id_at(q)
}

/// Reacts to a door half having been toggled to `new_state` at `pos`:
/// toggles the door's other half too. Returns the other half's position and
/// new state (the block update to broadcast), or `None` when there is no
/// other half to toggle.
pub fn toggle_other_door_half(world: &mut Terrain, pos: BlockPos, new_state: BlockStateId) -> (r: Option<(BlockPos, BlockStateId)>)
    requires
        door_offset(old(world).registry@, new_state.0) matches Some(dy) ==> i32::MIN <= pos.y + dy <= i32::MAX,
    ensures
        match door_offset(old(world).registry@, new_state.0) {
            None => r is None && same_blocks(*old(world), *final(world)),
            Some(dy) => {
                let other = offset_y(pos, dy);
                match interaction_outcome(old(world).registry@, old(world).block_id_at(other.point())) {
                    InteractionResult::Toggled(n) => r == Some((other, n)) && set_at(*old(world), *final(world), other.point(), n.0),
                    _ => r is None && same_blocks(*old(world), *final(world)),
                }
            },
        },
{
    let y_offset = match door_other_half_y_offset(&world.registry, new_state) {
        Some(y) => y,
        None => return None,
    };
    let other_pos = BlockPos::of(pos.x, pos.y + y_offset, pos.z);
    let other_state = world.block_at(other_pos.x, other_pos.y, other_pos.z);
    let other_new = match try_interact(&world.registry, other_state) {
        InteractionResult::Toggled(n) => n,
        _ => return None,
    };
    world.set_block(other_pos.x, other_pos.y, other_pos.z, other_new);
    Some((other_pos, other_new))
}

/// What interacting with a block changed.
#[derive(Clone, Copy, Debug, PartialEq, Eq, Structural)]
pub struct BlockInteraction {
    /// The block's new state.
    pub new_state: BlockStateId,
    /// Whether the block is now open (a block without an `open` property
    /// counts as closed).
    pub is_active: bool,
    /// Whether the block is a door half, whose other half must follow.
    pub door_toggled: bool,
}

/// A player's right-click on the block at `pos`: toggles it when it is
/// interactive and reports the new state, whether it is now open, and
/// whether it is a door whose other half must be toggled too; `None` (and
/// nothing changed) otherwise.
pub fn interact_at(world: &mut Terrain, pos: BlockPos) -> (r: Option<BlockInteraction>)
    ensures
        match interaction_outcome(old(world).registry@, old(world).block_id_at(pos.point())) {
            InteractionResult::Toggled(n) => {
                &&& r == Some(BlockInteraction {
                    new_state: n,
                    is_active: open_state(old(world).registry@, n.0) == Some(true),
                    door_toggled: door_offset(old(world).registry@, n.0) is Some,
                })
                &&& set_at(*old(world), *final(world), pos.point(), n.0)
            },
            _ => r is None && same_blocks(*old(world), *final(world)),
        },
{
    let block_state = world.block_at(pos.x, pos.y, pos.z);
    let new_state = match try_interact(&world.registry, block_state) {
        InteractionResult::Toggled(n) => n,
        _ => return None,
    };
    world.set_block(pos.x, pos.y, pos.z, new_state);
    let is_active = match is_open(&world.registry, new_state) {
        Some(b) => b,
        None => false,
    };
    let door_toggled = door_other_half_y_offset(&world.registry, new_state).is_some();
    Some(BlockInteraction { new_state, is_active, door_toggled })
}


/// A door's `open` property holds `"true"` or `"false"`.
pub open spec fn open_is_boolean(d: BlockDataView) -> bool {
    d.1 matches Some(m) && m.contains_key("open"@) && (m["open"@] == "true"@ || m["open"@] == "false"@)
}

/// Toggling a block's `open` property twice gives the block back.
pub proof fn lemma_toggle_twice(d: BlockDataView)
    requires
        open_is_boolean(d),
    ensures
        toggle_open(toggle_open(d)) == d,
{
    reveal_strlit("true");
    reveal_strlit("false");
    let m = d.1->0;
    let m1 = m.insert("open"@, toggled_value(m, "open"@));
    let m2 = m1.insert("open"@, toggled_value(m1, "open"@));
    assert(m2 =~= m);
}

/// Toggling keeps the block's name, and so whether and which way it is a
/// door half.
pub proof fn lemma_toggle_keeps_door_half(d: BlockDataView)
    ensures
        toggle_open(d).0 == d.0,
        data_door_offset(toggle_open(d)) == data_door_offset(d),
{
    reveal_strlit("half");
    reveal_strlit("open");
    assert("half"@[0] != "open"@[0]);
    assert("half"@ != "open"@);
    if d.1 is Some {
        let m = d.1->0;
        let m1 = m.insert("open"@, toggled_value(m, "open"@));
        assert(m1.contains_key("half"@) == m.contains_key("half"@));
        if m.contains_key("half"@) {
            assert(m1["half"@] == m["half"@]);
        }
    }
}

/// Toggling flips a boolean `open` property.
pub proof fn lemma_toggle_flips_open(d: BlockDataView)
    requires
        open_is_boolean(d),
    ensures
        open_is_boolean(toggle_open(d)),
        ((toggle_open(d).1->0)["open"@] == "true"@) == ((d.1->0)["open"@] == "false"@),
{
    reveal_strlit("true");
    reveal_strlit("false");
}

/// Interacting twice with a door in a registry without duplicate states
/// (where the toggled state is registered) gives the starting state back.
pub proof fn lemma_interact_twice(reg: Seq<BlockDataView>, id: u32)
    requires
        reg.len() <= 0x1_0000_0000,
        forall|i: int, j: int| 0 <= i < j < reg.len() ==> reg[i] != reg[j],
        (id as int) < reg.len(),
        is_door_name(reg[id as int].0),
        open_is_boolean(reg[id as int]),
        exists|i: int| 0 <= i < reg.len() && reg[i] == toggle_open(reg[id as int]),
    ensures
        interaction_outcome(reg, id) matches InteractionResult::Toggled(n)
            && interaction_outcome(reg, n.0) == InteractionResult::Toggled(BlockStateId(id)),
{
    let d = reg[id as int];
    crate::blocks::lemma_registered_data_round_trip(reg, toggle_open(d));
    let n = state_id_for(reg, toggle_open(d));
    assert(reg[n as int] == toggle_open(d));
    lemma_toggle_twice(d);
    lemma_toggle_flips_open(d);
    crate::blocks::lemma_registered_id_round_trip(reg, id);
}

} // verus!
