//! Per-player decisions of the packet handlers and background systems:
//! sneaking and swimming state, who receives a relayed update, what a
//! disconnect or a destroyed entity sets off.

use vstd::prelude::*;

verus! {

/// PlayerInput flag bit for sneaking.
pub const FLAG_SNEAK: u8 = 0x20;

/// The new sneaking state when a PlayerInput packet with `flags` changes
/// it; `None` when it stays (only changes are broadcast).
pub fn sneak_change(flags: u8, is_sneaking: bool) -> (r: Option<bool>)
    ensures
        ({
            let now = flags & FLAG_SNEAK != 0;
            if now == is_sneaking { r is None } else { r == Some(now) }
        }),
{
    let now = (flags & FLAG_SNEAK) != 0;
    if now == is_sneaking {
        None
    } else {
        Some(now)
    }
}

/// Whether a movement packet's `flags` say the player is on the ground (bit 0).
pub fn on_ground_flag(flags: u8) -> (r: bool)
    ensures
        r == (flags & 0x01 != 0),
{
    (flags & 0x01) != 0
}

/// The arm-swing animation for `hand`: 0 (main hand) for hand 0, else 3
/// (off hand).
pub fn swing_animation(hand: i32) -> (r: u8)
    ensures
        r == if hand == 0 { 0u8 } else { 3u8 },
{
    if hand == 0 { 0 } else { 3 }
}

/// Whether a player's update is relayed to `recipient`: not back to the
/// player itself, only over a live connection, and only to players that
/// track the sender.
pub fn relays_to(recipient: u64, sender: u64, connected: bool, tracks_sender: bool) -> (r: bool)
    ensures
        r == (recipient != sender && connected && tracks_sender),
{
    recipient != sender && connected && tracks_sender
}

/// The new swimming state when it changes: swimming starts on entering
/// water and stops on leaving it; `None` when it stays.
pub fn swimming_change(in_water: bool, is_swimming: bool) -> (r: Option<bool>)
    ensures
        in_water && !is_swimming ==> r == Some(true),
        !in_water && is_swimming ==> r == Some(false),
        in_water == is_swimming ==> r is None,
{
    if in_water && !is_swimming {
        Some(true)
    } else if !in_water && is_swimming {
        Some(false)
    } else {
        None
    }
}

/// What handling a disconnect does.
#[derive(Clone, Copy, Debug, PartialEq, Eq, Structural)]
pub struct DisconnectPlan {
    /// Send the disconnect packet with the reason.
    pub send_packet: bool,
    /// Save the player's data.
    pub save_data: bool,
    /// Announce that the player left.
    pub announce_leave: bool,
}

/// A disconnect of an entity that is a fully joined player (`full`), whose
/// connection is `running`, and that has an identity: a full player gets
/// the disconnect packet (when still connected), has its data saved and is
/// announced; a half-joined one is only announced when it has an identity.
/// The entity is despawned in every case.
pub fn disconnect_plan(full: bool, running: bool, has_identity: bool) -> (r: DisconnectPlan)
    ensures
        r.send_packet == (full && running),
        r.save_data == full,
        r.announce_leave == (full || has_identity),
{
    if full {
        DisconnectPlan { send_packet: running, save_data: true, announce_leave: true }
    } else {
        DisconnectPlan { send_packet: false, save_data: false, announce_leave: has_identity }
    }
}

/// The disconnect reason shown to the player: the given one, or
/// `Disconnected`.
pub fn disconnect_reason(reason: Option<&str>) -> (r: &str)
    ensures
        reason matches Some(s) ==> r@ == s@,
        reason is None ==> r@ == "Disconnected"@,
{
    match reason {
        Some(s) => s,
        None => "Disconnected",
    }
}

/// What destroying an entity does.
#[derive(Clone, Copy, Debug, PartialEq, Eq, Structural)]
pub enum DestroyAction {
    /// A player: they are told they were killed.
    NotifyPlayer,
    /// A mob: it is removed from clients and despawned with its chunk entry.
    DespawnMob,
    /// Any other entity: removed from clients, despawned, its boss bar and
    /// chunk entry removed.
    DespawnEntity,
}

/// How an entity is destroyed: players are notified, mobs and others
/// despawned.
pub fn destroy_action(is_player: bool, is_mob: bool) -> (r: DestroyAction)
    ensures
        is_player ==> r == DestroyAction::NotifyPlayer,
        !is_player && is_mob ==> r == DestroyAction::DespawnMob,
        !is_player && !is_mob ==> r == DestroyAction::DespawnEntity,
{
    if is_player {
        DestroyAction::NotifyPlayer
    } else if is_mob {
        DestroyAction::DespawnMob
    } else {
        DestroyAction::DespawnEntity
    }
}

/// The entity type id sent when spawning an entity for a client: players
/// always get the player type.
pub fn spawn_type_id(is_player: bool, entity_type_id: u16, player_type_id: u16) -> (r: u16)
    ensures
        r == if is_player { player_type_id } else { entity_type_id },
{
    if is_player { player_type_id } else { entity_type_id }
}

/// Render distance, in chunks, within which a client is sent entities: its
/// view distance, capped by the server's.
pub fn entity_render_distance(view_distance: u8, server_distance: u32) -> (r: u8)
    ensures
        r as int == if (server_distance as u8) < view_distance { (server_distance as u8) as int } else { view_distance as int },
{
    let server = server_distance as u8;
    if server < view_distance { server } else { view_distance }
}

/// Whether a repeated interaction with the same block is ignored: when the
/// last one (`elapsed_ms` ago, if any is remembered) is more recent than the
/// cooldown.
pub fn interaction_on_cooldown(elapsed_ms: Option<u64>, cooldown_ms: u64) -> (r: bool)
    ensures
        r == (elapsed_ms matches Some(e) && e < cooldown_ms),
{
    match elapsed_ms {
        Some(e) => e < cooldown_ms,
        None => false,
    }
}

} // verus!
