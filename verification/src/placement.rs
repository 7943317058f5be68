//! Decisions of block placement, block picking and sign editing.

use vstd::prelude::*;
use crate::text::{chars_of, eq_lit};

verus! {

/// The message refusing a block at height `y`, if it is out of the world.
pub open spec fn placement_height_check_spec(y: i32) -> Option<Seq<char>> {
    if y >= 319 {
        Some("Build limit is 319! Cannot place block here."@)
    } else if y <= -64 {
        Some("Cannot place block below Y=-64."@)
    } else {
        None
    }
}

/// Why a block cannot be placed at a height.
pub fn placement_height_check(y: i32) -> (r: Result<(), &'static str>)
    ensures
        match placement_height_check_spec(y) {
            Some(m) => r matches Err(s) && s@ == m,
            None => r is Ok,
        },
{
    if y >= 319 {
        Err("Build limit is 319! Cannot place block here.")
    } else if y <= -64 {
        Err("Cannot place block below Y=-64.")
    } else {
        Ok(())
    }
}

/// What a block-placement request from a player turns into.
#[derive(Clone, Copy, Debug)]
pub enum PlaceStep {
    /// The clicked block is interactive and the player is not sneaking:
    /// interact with it instead of placing.
    Interact,
    /// The target height is out of the world: tell the player why (no
    /// acknowledgement is sent).
    Refuse(&'static str),
    /// Place the held block, then acknowledge the request.
    Place,
    /// Nothing is held in the main hand: only acknowledge the request.
    AcknowledgeOnly,
    /// Off hand or an unknown hand: nothing happens.
    Ignore,
}

/// The first decision on a placement request: `hand` is the hand used (0
/// main, 1 off), `holding_item` whether the main hand's selected slot holds
/// an item, `y` the height of the clicked block.
pub fn place_block_step(sneaking: bool, clicked_interactive: bool, hand: i32, holding_item: bool, y: i32) -> (r: PlaceStep)
    ensures
        !sneaking && clicked_interactive ==> r == PlaceStep::Interact,
        !(!sneaking && clicked_interactive) && hand != 0 ==> r == PlaceStep::Ignore,
        !(!sneaking && clicked_interactive) && hand == 0 && !holding_item ==> r == PlaceStep::AcknowledgeOnly,
        !(!sneaking && clicked_interactive) && hand == 0 && holding_item ==> match placement_height_check_spec(y) {
            Some(m) => r matches PlaceStep::Refuse(s) && s@ == m,
            None => r == PlaceStep::Place,
        },
{
    if !sneaking && clicked_interactive {
        return PlaceStep::Interact;
    }
    if hand != 0 {
        return PlaceStep::Ignore;
    }
    if !holding_item {
        return PlaceStep::AcknowledgeOnly;
    }
    match placement_height_check(y) {
        Ok(()) => PlaceStep::Place,
        Err(m) => PlaceStep::Refuse(m),
    }
}

/// Kinds of block entity the server supports.
#[derive(Clone, Copy, Debug, PartialEq, Eq, Structural)]
pub enum BlockEntityKind {
    Sign,
}

/// The supported block entity for a block entity type name: signs and
/// hanging signs are signs; anything else is not supported.
pub fn block_entity_kind(entity_type: &str) -> (r: Option<BlockEntityKind>)
    ensures
        (entity_type@ == "sign"@ || entity_type@ == "hanging_sign"@) ==> r == Some(BlockEntityKind::Sign),
        !(entity_type@ == "sign"@ || entity_type@ == "hanging_sign"@) ==> r is None,
{
    let n = chars_of(entity_type);
    if eq_lit(n.as_slice(), "sign") || eq_lit(n.as_slice(), "hanging_sign") {
        Some(BlockEntityKind::Sign)
    } else {
        None
    }
}

/// Longest sign line (in bytes) the server stores.
pub const MAX_SIGN_LINE_LEN: usize = 384;

/// Every line is at most `MAX_SIGN_LINE_LEN` bytes long (in UTF-8).
pub open spec fn lines_fit(lines: Seq<String>) -> bool {
    forall|i: int| 0 <= i < lines.len() ==> vstd::utf8::encode_utf8(#[trigger] lines[i]@).len() <= MAX_SIGN_LINE_LEN
}

/// Whether every line of a sign update fits the line length bound (a
/// modified client could otherwise store megabytes of text per edit).
pub fn sign_lines_fit(lines: &Vec<String>) -> (r: bool)
    ensures
        r == lines_fit(lines@),
{
    let mut i: usize = 0;
    while i < lines.len()
        invariant
            i <= lines@.len(),
            forall|j: int| 0 <= j < i ==> vstd::utf8::encode_utf8(#[trigger] lines@[j]@).len() <= MAX_SIGN_LINE_LEN,
        decreases lines@.len() - i,
    {
        let line: &str = lines[i].as_str();
        let bytes: &[u8] = line.as_bytes();
        if bytes.len() > MAX_SIGN_LINE_LEN {
            return false;
        }
        i = i + 1;
    }
    true
}

/// What a pick-block request does.
#[derive(Clone, Copy, Debug, PartialEq, Eq, Structural)]
pub enum PickAction {
    /// Nothing to do.
    Nothing,
    /// Select hotbar slot `slot`.
    SelectHotbarSlot(u8),
    /// Swap inventory slot `index` into the selected hotbar slot.
    SwapIntoHotbar(usize),
    /// Put a fresh stack of one into the lowest open hotbar slot (creative).
    CreateStack,
}

/// Picking a block's item: select it when it is on the hotbar (unless
/// already held); else swap it in from the inventory (unless it already is
/// in the selected slot); else create it for a creative player; else
/// nothing.
pub fn pick_block_action(
    hotbar_slot: Option<u8>,
    selected_slot: u8,
    inventory_slot: Option<usize>,
    selected_inventory_index: usize,
    creative: bool,
) -> (r: PickAction)
    ensures
        hotbar_slot matches Some(s) ==> r == (if s == selected_slot { PickAction::Nothing } else { PickAction::SelectHotbarSlot(s) }),
        hotbar_slot is None && inventory_slot is Some ==> r == (if inventory_slot->0 == selected_inventory_index {
            PickAction::Nothing
        } else {
            PickAction::SwapIntoHotbar(inventory_slot->0)
        }),
        hotbar_slot is None && inventory_slot is None ==> r == (if creative { PickAction::CreateStack } else { PickAction::Nothing }),
{
    if let Some(s) = hotbar_slot {
        if s == selected_slot { PickAction::Nothing } else { PickAction::SelectHotbarSlot(s) }
    } else if let Some(i) = inventory_slot {
        if i == selected_inventory_index { PickAction::Nothing } else { PickAction::SwapIntoHotbar(i) }
    } else if creative {
        PickAction::CreateStack
    } else {
        PickAction::Nothing
    }
}

/// The text of a sign block entity: the lines of its front and back, and
/// whether it is waxed (a waxed sign cannot be edited).
pub struct SignText {
    pub front: Vec<String>,
    pub back: Vec<String>,
    pub waxed: bool,
}

/// Stores the lines a player sent back from the sign editor: only when every
/// line fits the length bound, the position holds a sign (`holds_sign`) and
/// the sign is not waxed. The lines replace the front text when `is_front`,
/// else the back text; the other side stays. Returns whether the sign
/// changed (then its update is broadcast); otherwise nothing changes.
pub fn apply_sign_update(sign: &mut SignText, holds_sign: bool, is_front: bool, lines: Vec<String>) -> (r: bool)
    ensures
        r == (lines_fit(lines@) && holds_sign && !old(sign).waxed),
        r && is_front ==> final(sign).front@ == lines@ && final(sign).back@ == old(sign).back@
            && final(sign).waxed == old(sign).waxed,
        r && !is_front ==> final(sign).back@ == lines@ && final(sign).front@ == old(sign).front@
            && final(sign).waxed == old(sign).waxed,
        !r ==> final(sign).front@ == old(sign).front@ && final(sign).back@ == old(sign).back@
            && final(sign).waxed == old(sign).waxed,
{
    if !sign_lines_fit(&lines) || !holds_sign || sign.waxed {
        return false;
    }
    if is_front {
        sign.front = lines;
    } else {
        sign.back = lines;
    }
    true
}

} // verus!
